//! Trusted surface over the JSON crate: the handful of calls extraction
//! makes to parse a payload and walk the parsed document.
//!
//! A parsed JSON value is opaque here, so what each call returns is given
//! a name: an uninterpreted function of the arguments alone. Parsing and
//! every accessor are deterministic, which is all the names claim; what
//! the names denote on a given payload is never written down, and the
//! extraction guarantees are proved downstream from these contracts, in
//! code that checks the decoded pieces one by one.

use vstd::prelude::*;

verus! {

#[verifier::external_type_specification]
#[verifier::external_body]
pub struct ExValue(serde_json::Value);

#[verifier::external_type_specification]
#[verifier::external_body]
pub struct ExJsonError(serde_json::Error);

/// The JSON document a payload text denotes, when it parses as one.
pub uninterp spec fn json_doc_of(s: Seq<char>) -> Option<serde_json::Value>;

/// The value under a key, when the value is an object holding the key.
pub uninterp spec fn json_field_of(v: serde_json::Value, key: Seq<char>) -> Option<
    serde_json::Value,
>;

/// The text of a value, when the value is a string.
pub uninterp spec fn json_str_of(v: serde_json::Value) -> Option<Seq<char>>;

/// How many elements a value holds, when it is an array.
pub uninterp spec fn json_array_len_of(v: serde_json::Value) -> Option<int>;

/// The element of an array value at an index, when there is one.
pub uninterp spec fn json_array_elem_of(v: serde_json::Value, i: int) -> Option<
    serde_json::Value,
>;

/// Relies on `serde_json::from_str::<Value>`: parses the payload text as
/// one JSON document, failing exactly on text that is not one.
#[verifier::external_body]
pub(crate) fn parse_json(raw: &str) -> (r: Result<serde_json::Value, serde_json::Error>)
    ensures
        match r {
            Ok(v) => json_doc_of(raw@) == Some(v),
            Err(_) => json_doc_of(raw@) is None,
        },
{
    serde_json::from_str(raw)
}

/// Relies on `serde_json::Value::get`: the value under this key, when the
/// value is an object holding the key, and `None` otherwise.
#[verifier::external_body]
pub(crate) fn json_get<'a>(v: &'a serde_json::Value, key: &str) -> (r: Option<
    &'a serde_json::Value,
>)
    ensures
        match r {
            Some(f) => json_field_of(*v, key@) == Some(*f),
            None => json_field_of(*v, key@) is None,
        },
{
    v.get(key)
}

/// Relies on `serde_json::Value::as_str`: the text of the value, when the
/// value is a string, and `None` otherwise.
#[verifier::external_body]
pub(crate) fn json_as_str(v: &serde_json::Value) -> (r: Option<String>)
    ensures
        match r {
            Some(s) => json_str_of(*v) == Some(s@),
            None => json_str_of(*v) is None,
        },
{
    match v.as_str() {
        Some(s) => Some(s.to_string()),
        None => None,
    }
}

/// Relies on `serde_json::Value::as_array`: how many elements the value
/// holds, when it is an array, and `None` otherwise.
#[verifier::external_body]
pub(crate) fn json_array_len(v: &serde_json::Value) -> (r: Option<usize>)
    ensures
        match r {
            Some(n) => json_array_len_of(*v) == Some(n as int),
            None => json_array_len_of(*v) is None,
        },
{
    match v.as_array() {
        Some(a) => Some(a.len()),
        None => None,
    }
}

/// Relies on `serde_json::Value::as_array` and `slice::get`: the element
/// at this index, present exactly when the value is an array whose length
/// exceeds the index; out of bounds is `None`, never a panic.
#[verifier::external_body]
pub(crate) fn json_array_get<'a>(v: &'a serde_json::Value, i: usize) -> (r: Option<
    &'a serde_json::Value,
>)
    ensures
        match r {
            Some(e) => json_array_elem_of(*v, i as int) == Some(*e),
            None => json_array_elem_of(*v, i as int) is None,
        },
        r is Some <==> (json_array_len_of(*v) matches Some(n) && i < n),
{
    match v.as_array() {
        Some(a) => a.get(i),
        None => None,
    }
}

} // verus!
