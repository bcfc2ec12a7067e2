//! Reading JSON documents with `serde_json`.
//!
//! The parsed value is opaque to the proofs; what the crate reads of it goes
//! through the functions below, whose results are named.
use vstd::prelude::*;
use serde_json::Value;

verus! {

/// A parsed JSON document (`serde_json::Value`).
#[verifier::external_type_specification]
#[verifier::external_body]
pub struct ExJsonValue(serde_json::Value);

/// The value that `serde_json::from_str` parses from `text`, if it parses.
pub uninterp spec fn json_parse(text: Seq<char>) -> Option<Value>;

/// The member `key` of an object (`Value::get` with a string key).
pub uninterp spec fn json_member(v: Value, key: Seq<char>) -> Option<Value>;

/// The elements of an array (`Value::as_array`).
pub uninterp spec fn json_array(v: Value) -> Option<Seq<Value>>;

/// The contents of a string (`Value::as_str`).
pub uninterp spec fn json_string(v: Value) -> Option<Seq<char>>;

/// `serde_json::from_str::<Value>`: the parsed document, or `None` when
/// `text` is not JSON.
#[verifier::external_body]
pub(crate) fn parse_json(text: &str) -> (r: Option<Value>)
    ensures
        r == json_parse(text@),
{
    serde_json::from_str::<Value>(text).ok()
}

/// `Value::get` with a string key: the member `key` when `v` is an object
/// that has it, else `None`.
#[verifier::external_body]
pub(crate) fn member<'a>(v: &'a Value, key: &str) -> (r: Option<&'a Value>)
    ensures
        match r {
            Some(m) => json_member(*v, key@) == Some(*m),
            None => json_member(*v, key@) is None,
        },
{
    v.get(key)
}

/// `Value::as_array`: the elements when `v` is an array, else `None`.
#[verifier::external_body]
pub(crate) fn as_array<'a>(v: &'a Value) -> (r: Option<&'a Vec<Value>>)
    ensures
        match r {
            Some(a) => json_array(*v) == Some(a@),
            None => json_array(*v) is None,
        },
{
    v.as_array()
}

/// `Value::as_str`: the string when `v` is a string, else `None`.
#[verifier::external_body]
pub(crate) fn as_string(v: &Value) -> (r: Option<String>)
    ensures
        match r {
            Some(s) => json_string(*v) == Some(s@),
            None => json_string(*v) is None,
        },
{
    v.as_str().map(|s| s.to_string())
}

} // verus!
