//! How a request is turned away.
use vstd::prelude::*;

verus! {

/// The request itself is wrong.
pub const BAD_REQUEST: u16 = 400;

/// The server does not do this.
pub const NOT_IMPLEMENTED: u16 = 501;

/// The error type of a request that is wrong in itself.
pub const INVALID_REQUEST_ERROR: &'static str = "invalid_request_error";

/// The type of an Anthropic answer that is an error.
pub const ERROR_ANSWER: &'static str = "error";

/// An error answer: its status, what it says, the type it gives the error,
/// the field it is about, and the type of the answer that the error stands in.
#[derive(Debug)]
pub struct ApiError {
    pub status: u16,
    pub message: String,
    pub error_type: Option<&'static str>,
    pub param: Option<&'static str>,
    pub answer_type: Option<&'static str>,
}

/// An optional name is there and reads `text`.
pub open spec fn names(name: Option<&'static str>, text: Seq<char>) -> bool {
    name is Some && name->0@ == text
}

impl ApiError {
    /// The answer says `message` under `status`, and nothing besides.
    pub open spec fn says(&self, status: u16, message: Seq<char>) -> bool {
        &&& self.status == status
        &&& self.message@ == message
        &&& self.error_type is None
        &&& self.param is None
        &&& self.answer_type is None
    }

    /// The answer says `message` under `status`, about the field `param`.
    pub open spec fn says_of(&self, status: u16, message: Seq<char>, param: Seq<char>) -> bool {
        &&& self.status == status
        &&& self.message@ == message
        &&& self.error_type is None
        &&& names(self.param, param)
        &&& self.answer_type is None
    }

    /// The answer calls the request invalid and says `message` under
    /// `status`, about the field `param`.
    pub open spec fn faults(&self, status: u16, message: Seq<char>, param: Seq<char>) -> bool {
        &&& self.status == status
        &&& self.message@ == message
        &&& names(self.error_type, INVALID_REQUEST_ERROR@)
        &&& names(self.param, param)
        &&& self.answer_type is None
    }

    /// The answer is an Anthropic error that calls the request invalid and
    /// says `message`, about no field.
    pub open spec fn faults_turns(&self, message: Seq<char>) -> bool {
        &&& self.status == BAD_REQUEST
        &&& self.message@ == message
        &&& names(self.error_type, INVALID_REQUEST_ERROR@)
        &&& self.param is None
        &&& names(self.answer_type, ERROR_ANSWER@)
    }
}

/// A feature this server does not have.
pub fn unsupported_feature(message: &str) -> (e: ApiError)
    ensures
        e.says(NOT_IMPLEMENTED, message@),
{
    ApiError {
        status: NOT_IMPLEMENTED,
        message: message.to_owned(),
        error_type: None,
        param: None,
        answer_type: None,
    }
}

/// A field that holds what it may not.
pub fn invalid_request(message: &str, param: &'static str) -> (e: ApiError)
    ensures
        e.says_of(BAD_REQUEST, message@, param@),
{
    ApiError {
        status: BAD_REQUEST,
        message: message.to_owned(),
        error_type: None,
        param: Some(param),
        answer_type: None,
    }
}

/// A request that cannot be served as it stands.
pub fn bad_request(message: String) -> (e: ApiError)
    ensures
        e.says(BAD_REQUEST, message@),
{
    ApiError { status: BAD_REQUEST, message, error_type: None, param: None, answer_type: None }
}

/// A field of a request that is wrong in itself, under a status of its own.
pub(crate) fn faulty_field(status: u16, message: String, param: &'static str) -> (e: ApiError)
    ensures
        e.faults(status, message@, param@),
{
    ApiError {
        status,
        message,
        error_type: Some(INVALID_REQUEST_ERROR),
        param: Some(param),
        answer_type: None,
    }
}

/// An Anthropic request that is wrong in itself.
pub(crate) fn faulty_turns(message: String) -> (e: ApiError)
    ensures
        e.faults_turns(message@),
{
    ApiError {
        status: BAD_REQUEST,
        message,
        error_type: Some(INVALID_REQUEST_ERROR),
        param: None,
        answer_type: Some(ERROR_ANSWER),
    }
}

/// A string as a Rust source literal would spell it.
pub uninterp spec fn debug_quoted(s: Seq<char>) -> Seq<char>;

/// `str`'s `Debug` rendering, through `format!`: the result is a function of
/// the text alone.
#[verifier::external_body]
pub(crate) fn quoted(s: &str) -> (q: String)
    ensures
        q@ == debug_quoted(s@),
{
    format!("{s:?}")
}

/// What each kind of answer holds, field by field.
pub proof fn law_answers_hold_what_they_say(e: ApiError, status: u16, message: Seq<char>, param: Seq<char>)
    ensures
        e.says(status, message) ==> e.status == status && e.message@ == message && e.error_type is None && e.param
            is None && e.answer_type is None,
        e.says_of(status, message, param) ==> e.status == status && e.message@ == message && e.error_type is None
            && e.param is Some && e.param->0@ == param && e.answer_type is None,
        e.faults(status, message, param) ==> e.status == status && e.message@ == message && e.error_type is Some
            && e.error_type->0@ == "invalid_request_error"@ && e.param is Some && e.param->0@ == param && e.answer_type
            is None,
        e.faults_turns(message) ==> e.status == 400 && e.message@ == message && e.error_type is Some
            && e.error_type->0@ == "invalid_request_error"@ && e.param is None && e.answer_type is Some
            && e.answer_type->0@ == "error"@,
        BAD_REQUEST == 400,
        NOT_IMPLEMENTED == 501,
{
}

} // verus!
