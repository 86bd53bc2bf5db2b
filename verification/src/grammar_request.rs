//! Where a request's stated constraint becomes a grammar to compile.
use serde_json::Value;
use vstd::prelude::*;
use vstd::string::StringExecFns;
use crate::api::{faulty_field, ApiError, BAD_REQUEST, NOT_IMPLEMENTED};
use crate::json::{read_text_field, text_field};
use crate::text::{same_text, trim, trimmed};

verus! {

/// The rule every grammar starts from.
pub const ROOT: &'static str = "root";

/// Why a JSON schema is refused.
pub const JSON_SCHEMA_MESSAGE: &'static str = "response_format json_schema is not implemented: the grammar engine and the sampler hook are wired, but converting a JSON schema to a GBNF grammar is not. Send the equivalent grammar in the \"grammar\" field, or use response_format json_object for the best-effort character-class mode.";

/// The grammar text a `grammar` field states: white space is no grammar.
pub open spec fn states(grammar: Option<&str>, g: Option<&str>) -> bool {
    match grammar {
        Some(src) => if trimmed(src@).len() == 0 {
            g is None
        } else {
            g is Some && g->0@ == trimmed(src@)
        },
        None => g is None,
    }
}

/// The `type` of a response format, as far as there is one and it is a
/// string.
pub open spec fn kind_of(response_format: Option<&Value>) -> Option<Seq<char>> {
    match response_format {
        Some(v) => text_field(*v, "type"@),
        None => None,
    }
}

/// The grammar text one request runs under, from every field that can state
/// one.
pub fn for_request<'a>(grammar: Option<&'a str>, response_format: Option<&Value>) -> (r: Result<
    Option<&'a str>,
    ApiError,
>)
    ensures
        r is Err <==> kind_of(response_format) == Some("json_schema"@),
        r matches Err(e) ==> e.faults(NOT_IMPLEMENTED, JSON_SCHEMA_MESSAGE@, "response_format"@),
        r matches Ok(g) ==> states(grammar, g),
{
    match response_format {
        Some(v) => for_kind(grammar, read_text_field(v, "type")),
        None => for_kind(grammar, None),
    }
}

/// The grammar text beside a response format of this `type`. A schema is
/// refused even beside a grammar: that is two constraints, and serving one
/// of them does not answer the question.
pub fn for_kind<'a>(grammar: Option<&'a str>, kind: Option<&str>) -> (r: Result<Option<&'a str>, ApiError>)
    ensures
        r is Err <==> kind is Some && kind->0@ == "json_schema"@,
        r matches Err(e) ==> e.faults(NOT_IMPLEMENTED, JSON_SCHEMA_MESSAGE@, "response_format"@),
        r matches Ok(g) ==> states(grammar, g),
{
    if let Some(k) = kind {
        if same_text(k, "json_schema") {
            return Err(json_schema_not_implemented());
        }
    }
    match grammar {
        Some(src) => {
            let text: &'a str = trim(src);
            if text.is_empty() {
                assert(trimmed(src@) =~= Seq::empty());
                Ok(None)
            } else {
                Ok(Some(text))
            }
        },
        None => Ok(None),
    }
}

/// The refusal of a grammar that does not parse, with the parser's own
/// diagnostic.
pub fn compile_refusal(diagnostic: &str) -> (e: ApiError)
    ensures
        e.faults(BAD_REQUEST, "grammar: "@ + diagnostic@, "grammar"@),
{
    let mut message: String = "grammar: ".to_owned();
    message.append(diagnostic);
    faulty_field(BAD_REQUEST, message, "grammar")
}

/// The one place a JSON schema is refused.
fn json_schema_not_implemented() -> (e: ApiError)
    ensures
        e.faults(NOT_IMPLEMENTED, JSON_SCHEMA_MESSAGE@, "response_format"@),
{
    faulty_field(NOT_IMPLEMENTED, JSON_SCHEMA_MESSAGE.to_owned(), "response_format")
}

/// A grammar field states its text without the white space around it; a field
/// that is missing or all white space states none.
pub proof fn law_a_grammar_is_its_text(src: &str, g: Option<&str>)
    ensures
        states(None, g) <==> g is None,
        (forall|i: int| 0 <= i < src@.len() ==> crate::text::is_white_space(#[trigger] src@[i])) ==> (states(
            Some(src),
            g,
        ) <==> g is None),
        (exists|i: int| 0 <= i < src@.len() && !crate::text::is_white_space(#[trigger] src@[i])) ==> (states(
            Some(src),
            g,
        ) <==> g is Some && g->0@ == trimmed(src@)),
{
    crate::text::law_trimming_cuts_white_space_only(src@);
    let (a, b) = choose|i: int, j: int|
        {
            &&& 0 <= i <= j <= src@.len()
            &&& trimmed(src@) == #[trigger] src@.subrange(i, j)
            &&& forall|k: int| 0 <= k < i ==> crate::text::is_white_space(#[trigger] src@[k])
            &&& forall|k: int| j <= k < src@.len() ==> crate::text::is_white_space(#[trigger] src@[k])
        };
    if trimmed(src@).len() > 0 {
        assert(src@[a] == trimmed(src@)[0]);
    }
}

/// The kind of a response format is the text under its `type`.
pub proof fn law_a_format_is_its_type(format: &Value)
    ensures
        kind_of(None) is None,
        kind_of(Some(format)) == text_field(*format, "type"@),
        ROOT@ == "root"@,
{
}

} // verus!
