//! JSON values as the provider APIs carry them.

use vstd::prelude::*;

verus! {

/// A JSON value: `serde_json::Value`, which this library carries and reads
/// through the accessors below.
#[verifier::external_type_specification]
#[verifier::external_body]
pub struct ExValue(serde_json::Value);

/// What a JSON value is. A number is kept as far as it is read here: the
/// `u64` that it represents, if it is an integer in that range.
pub enum Json {
    Null,
    Bool(bool),
    Number(Option<u64>),
    Text(Seq<char>),
    Array(Seq<Json>),
    Object(Map<Seq<char>, Json>),
}

/// The contents of a `serde_json::Value`.
pub uninterp spec fn json_of(value: serde_json::Value) -> Json;

/// `serde_json::Value::as_bool` gives the boolean of a JSON boolean and
/// nothing for any other value.
pub assume_specification[ serde_json::Value::as_bool ](value: &serde_json::Value) -> (r: Option<
    bool,
>)
    ensures
        r == (match json_of(*value) {
            Json::Bool(b) => Some(b),
            _ => None,
        }),
;

/// `serde_json::Value::as_str` gives the text of a JSON string and nothing for
/// any other value.
pub assume_specification[ serde_json::Value::as_str ](value: &serde_json::Value) -> (r: Option<
    &str,
>)
    ensures
        match (r, json_of(*value)) {
            (Some(text), Json::Text(held)) => text@ == held,
            (None, Json::Text(_)) => false,
            (Some(_), _) => false,
            (None, _) => true,
        },
;

/// `serde_json::Value::as_u64` gives the value of a JSON number that is an
/// integer in the range of `u64` and nothing for any other value.
pub assume_specification[ serde_json::Value::as_u64 ](value: &serde_json::Value) -> (r: Option<u64>)
    ensures
        r == (match json_of(*value) {
            Json::Number(n) => n,
            _ => None,
        }),
;

/// `serde_json::Value::get` with a string gives the member of that name of a
/// JSON object. It gives nothing where the object has no such member or the
/// value is no object.
#[verifier::external_body]
pub(crate) fn member<'a>(value: &'a serde_json::Value, key: &str) -> (r: Option<
    &'a serde_json::Value,
>)
    ensures
        match json_of(*value) {
            Json::Object(members) => match r {
                Some(found) => members.contains_key(key@) && json_of(*found) == members[key@],
                None => !members.contains_key(key@),
            },
            _ => r is None,
        },
{
    value.get(key)
}

/// `serde_json::Value::from_iter` on one pair of a name and a boolean makes the
/// JSON object with that one member.
#[verifier::external_body]
pub(crate) fn object_with_flag(key: &str, flag: bool) -> (r: serde_json::Value)
    ensures
        json_of(r) == Json::Object(map![key@ => Json::Bool(flag)]),
{
    serde_json::Value::from_iter([(key, flag)])
}

/// The member of an object, if the value is an object that has it.
pub open spec fn member_of(value: Json, key: Seq<char>) -> Option<Json> {
    match value {
        Json::Object(members) => if members.contains_key(key) {
            Some(members[key])
        } else {
            None
        },
        _ => None,
    }
}

/// Whether the member of an object is there and is `true`.
pub open spec fn flag_of(value: Json, key: Seq<char>) -> bool {
    member_of(value, key) == Some(Json::Bool(true))
}

/// The text of a member, or nothing where it is missing or no text.
pub open spec fn text_of(value: Json, key: Seq<char>) -> Seq<char> {
    match member_of(value, key) {
        Some(Json::Text(text)) => text,
        _ => Seq::empty(),
    }
}

/// The number of a member, if it is an integer that fits in 32 bits.
pub open spec fn number_of(value: Json, key: Seq<char>) -> Option<u32> {
    match member_of(value, key) {
        Some(Json::Number(Some(number))) => if number <= u32::MAX {
            Some(number as u32)
        } else {
            None
        },
        _ => None,
    }
}

/// Whether the member of an object is there and is `true`.
pub fn flag(value: &serde_json::Value, key: &str) -> (r: bool)
    ensures
        r == flag_of(json_of(*value), key@),
{
    match member(value, key) {
        Some(found) => match found.as_bool() {
            Some(set) => set,
            None => false,
        },
        None => false,
    }
}

/// The text of a member, or nothing where it is missing or no text.
pub fn text(value: &serde_json::Value, key: &str) -> (r: String)
    ensures
        r@ == text_of(json_of(*value), key@),
{
    match member(value, key) {
        Some(found) => match found.as_str() {
            Some(held) => held.to_owned(),
            None => String::new(),
        },
        None => String::new(),
    }
}

/// The number of a member, if it is an integer that fits in 32 bits.
pub fn number(value: &serde_json::Value, key: &str) -> (r: Option<u32>)
    ensures
        r == number_of(json_of(*value), key@),
{
    match member(value, key) {
        Some(found) => match found.as_u64() {
            Some(held) => if held <= u32::MAX as u64 {
                Some(held as u32)
            } else {
                None
            },
            None => None,
        },
        None => None,
    }
}

} // verus!
