//! Reading parsed JSON documents.
use serde_json::Value;
use vstd::prelude::*;

verus! {

/// A parsed JSON value.
#[verifier::external_type_specification]
#[verifier::external_body]
pub struct ExValue(serde_json::Value);

/// What parsing a document gives: its value, or the diagnostic.
pub uninterp spec fn json_parsed(text: Seq<char>) -> Result<Value, Seq<char>>;

/// What an object holds under a key.
pub uninterp spec fn json_field(value: Value, key: Seq<char>) -> Option<Value>;

/// What an array holds.
pub uninterp spec fn json_items(value: Value) -> Option<Seq<Value>>;

/// The text of a string.
pub uninterp spec fn json_text(value: Value) -> Option<Seq<char>>;

/// `serde_json::from_str`: the value of a whole JSON document, or the
/// error's `Display` text. Both are a function of the text alone.
#[verifier::external_body]
pub(crate) fn parse(text: &str) -> (r: Result<Value, String>)
    ensures
        match r {
            Ok(v) => json_parsed(text@) == Ok::<Value, Seq<char>>(v),
            Err(e) => json_parsed(text@) == Err::<Value, Seq<char>>(e@),
        },
{
    serde_json::from_str::<Value>(text).map_err(|e| e.to_string())
}

/// `serde_json::Value::get` with a string: what an object holds under that
/// key, and nothing for any other kind of value.
#[verifier::external_body]
pub(crate) fn field<'a>(value: &'a Value, key: &str) -> (r: Option<&'a Value>)
    ensures
        match r {
            Some(v) => json_field(*value, key@) == Some(*v),
            None => json_field(*value, key@) is None,
        },
{
    value.get(key)
}

/// `serde_json::Value::as_array`: the elements of an array, in order, and
/// nothing for any other kind of value.
pub assume_specification[ serde_json::Value::as_array ](value: &Value) -> (r: Option<&Vec<Value>>)
    ensures
        match r {
            Some(v) => json_items(*value) == Some(v@),
            None => json_items(*value) is None,
        },
;

/// `serde_json::Value::as_str`: the text of a string, and nothing for any
/// other kind of value.
pub assume_specification[ serde_json::Value::as_str ](value: &Value) -> (r: Option<&str>)
    ensures
        match r {
            Some(s) => json_text(*value) == Some(s@),
            None => json_text(*value) is None,
        },
;

/// The text an object holds under a key, where it holds a string there.
pub open spec fn text_field(value: Value, key: Seq<char>) -> Option<Seq<char>> {
    match json_field(value, key) {
        Some(v) => json_text(v),
        None => None,
    }
}

/// Reads [`text_field`].
pub fn read_text_field<'a>(value: &'a Value, key: &str) -> (r: Option<&'a str>)
    ensures
        match r {
            Some(s) => text_field(*value, key@) == Some(s@),
            None => text_field(*value, key@) is None,
        },
{
    match field(value, key) {
        Some(v) => v.as_str(),
        None => None,
    }
}

/// The text under a key is there exactly when a string is there.
pub proof fn law_a_text_field_is_a_string(value: Value, key: Seq<char>)
    ensures
        json_field(value, key) is None ==> text_field(value, key) is None,
        json_field(value, key) is Some ==> text_field(value, key) == json_text(json_field(value, key)->0),
{
}

} // verus!
