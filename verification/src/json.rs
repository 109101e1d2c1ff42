//! JSON as the payload reader sees it: the trusted boundary to `serde_json`.
//!
//! A `serde_json::Value` is opaque to the verifier. What it holds is named by
//! `json_of`, and the few accessors that the reader calls are specified over
//! that name, each as its source in `serde_json` has it.

use vstd::prelude::*;

verus! {

/// A JSON value. Of a number only its value as a 64-bit signed integer is
/// modelled, where it has one.
pub ghost enum Json {
    Null,
    Bool(bool),
    /// `Some` for an integer in the range of `i64`, `None` for any other
    /// number.
    Number(Option<i64>),
    Text(Seq<char>),
    Array(Seq<Json>),
    Object(Map<Seq<char>, Json>),
}

/// `serde_json::Value`, a decoded JSON document.
#[verifier::external_type_specification]
#[verifier::external_body]
pub struct ExValue(serde_json::Value);

/// What a `serde_json::Value` holds.
pub uninterp spec fn json_of(value: serde_json::Value) -> Json;

/// What decoding a text as JSON gives: the value it denotes, or, where the
/// text is no JSON document, the decoder's account of why not.
pub uninterp spec fn decoded_json(text: Seq<u8>) -> Result<Json, Seq<char>>;

/// The values that hold the items of an array, each by what it holds.
pub open spec fn items_json(items: Seq<serde_json::Value>) -> Seq<Json> {
    items.map_values(|item: serde_json::Value| json_of(item))
}

/// The member of an object under `key`, where the value is an object and
/// has one.
pub open spec fn member(value: Json, key: Seq<char>) -> Option<Json> {
    match value {
        Json::Object(members) => if members.contains_key(key) {
            Some(members[key])
        } else {
            None
        },
        _ => None,
    }
}

/// `serde_json::Value::is_null` tells whether the value is `null`.
pub assume_specification[ serde_json::Value::is_null ](value: &serde_json::Value) -> (r: bool)
    ensures
        r == (json_of(*value) is Null),
;

/// `serde_json::Value::is_object` tells whether the value is an object.
pub assume_specification[ serde_json::Value::is_object ](value: &serde_json::Value) -> (r: bool)
    ensures
        r == (json_of(*value) is Object),
;

/// `serde_json::Value::as_str` gives the text of a string, and nothing for
/// any other value.
pub assume_specification<'a>[ serde_json::Value::as_str ](value: &'a serde_json::Value) -> (r:
    Option<&'a str>)
    ensures
        match r {
            Some(text) => json_of(*value) == Json::Text(text@),
            None => !(json_of(*value) is Text),
        },
;

/// `serde_json::Value::as_i64` gives the integer that a number stands for,
/// where it is one within `i64`, and nothing for any other value.
pub assume_specification[ serde_json::Value::as_i64 ](value: &serde_json::Value) -> (r: Option<
    i64,
>)
    ensures
        r == match json_of(*value) {
            Json::Number(n) => n,
            _ => None,
        },
;

/// `serde_json::Value::as_array` gives the items of an array, and nothing
/// for any other value.
pub assume_specification<'a>[ serde_json::Value::as_array ](value: &'a serde_json::Value) -> (r:
    Option<&'a Vec<serde_json::Value>>)
    ensures
        match r {
            Some(items) => json_of(*value) == Json::Array(items_json(items@)),
            None => !(json_of(*value) is Array),
        },
;

/// `serde_json::Value::get` with a text as index: the member of an object
/// under that key, and nothing where the value is no object or has no such
/// member.
#[verifier::external_body]
pub(crate) fn get_member<'a>(value: &'a serde_json::Value, key: &str) -> (r: Option<
    &'a serde_json::Value,
>)
    ensures
        match r {
            Some(found) => member(json_of(*value), key@) == Some(json_of(*found)),
            None => member(json_of(*value), key@) is None,
        },
{
    value.get(key)
}

/// `serde_json::from_slice` for a `serde_json::Value`; an error is given as
/// its own text. The contract claims that the outcome depends on the bytes
/// alone: it is the value, or the error's text, that `decoded_json` names for
/// them.
#[verifier::external_body]
pub(crate) fn decode_json(text: &[u8]) -> (decoded: Result<serde_json::Value, String>)
    ensures
        match decoded {
            Ok(value) => decoded_json(text@) == Ok::<Json, Seq<char>>(json_of(value)),
            Err(why) => decoded_json(text@) == Err::<Json, Seq<char>>(why@),
        },
{
    match serde_json::from_slice::<serde_json::Value>(text) {
        Ok(value) => Ok(value),
        Err(error) => Err(error.to_string()),
    }
}

} // verus!
