//! JSON texts: which bytes are JSON, and what stands under a key.
//!
//! The `serde_json` crate reads the texts. The library compares parts of them and looks no
//! further into them.

use vstd::prelude::*;

verus! {

/// A JSON value, `serde_json::Value`.
#[verifier::external_type_specification]
#[verifier::external_body]
pub struct ExValue(serde_json::Value);

/// The value that bytes stand for as a JSON text, if they are one.
pub uninterp spec fn json_value(bytes: Seq<u8>) -> Option<serde_json::Value>;

/// The value under a key, where a value is an object that has the key.
pub uninterp spec fn json_member(value: serde_json::Value, key: Seq<char>) -> Option<
    serde_json::Value,
>;

/// Whether two values are equal as JSON.
pub uninterp spec fn json_equal(a: serde_json::Value, b: serde_json::Value) -> bool;

/// `serde_json::from_slice` reads a JSON text into a value.
#[verifier::external_body]
pub(crate) fn parse_json(bytes: &[u8]) -> (value: Option<serde_json::Value>)
    ensures
        value == json_value(bytes@),
{
    serde_json::from_slice(bytes).ok()
}

/// `serde_json::Value::get` finds the value under a key.
#[verifier::external_body]
pub(crate) fn get_member<'a>(value: &'a serde_json::Value, key: &str) -> (member: Option<
    &'a serde_json::Value,
>)
    ensures
        match member {
            Some(m) => json_member(*value, key@) == Some(*m),
            None => json_member(*value, key@) is None,
        },
{
    value.get(key)
}

/// The `==` of `serde_json::Value` compares two values. Every value equals itself, as `Value` is
/// `Eq`: its numbers are never NaN.
#[verifier::external_body]
pub(crate) fn same_value(a: &serde_json::Value, b: &serde_json::Value) -> (same: bool)
    ensures
        same == json_equal(*a, *b),
        *a == *b ==> same,
{
    a == b
}

/// Whether bytes are a JSON text.
pub open spec fn is_json(bytes: Seq<u8>) -> bool {
    json_value(bytes) is Some
}

/// Whether the JSON text `whole` is an object whose member `key` equals the JSON text `part`.
pub open spec fn has_member(whole: Seq<u8>, key: Seq<char>, part: Seq<u8>) -> bool {
    match (json_value(whole), json_value(part)) {
        (Some(w), Some(p)) => match json_member(w, key) {
            Some(m) => json_equal(m, p),
            None => false,
        },
        _ => false,
    }
}

/// Whether a value has a member that equals another value.
pub(crate) fn member_equals(
    whole: &serde_json::Value,
    key: &str,
    part: &serde_json::Value,
) -> (equal: bool)
    ensures
        equal == match json_member(*whole, key@) {
            Some(m) => json_equal(m, *part),
            None => false,
        },
{
    match get_member(whole, key) {
        Some(member) => same_value(member, part),
        None => false,
    }
}

} // verus!
