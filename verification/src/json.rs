//! JSON documents: the values of `serde_json`, seen as mathematical trees.
//!
//! Every item in this file that is believed rather than proved speaks of one
//! function of `serde_json`; the tree a value stands for is `json_of`.
use crate::text;
use vstd::prelude::*;

verus! {

/// The tree that a JSON value stands for. A number that is no integer keeps
/// only the fact that it is one.
pub enum Json {
    Null,
    Bool(bool),
    Int(int),
    Float,
    Str(Seq<char>),
    Array(Seq<Json>),
    Object(Map<Seq<char>, Json>),
}

impl Json {
    /// The member of an object under `key`; nothing for any other tree.
    pub open spec fn member(self, key: Seq<char>) -> Option<Json> {
        match self {
            Json::Object(members) => if members.dom().contains(key) {
                Some(members[key])
            } else {
                None
            },
            _ => None,
        }
    }

    /// The tree as a signed 64-bit integer.
    pub open spec fn to_i64(self) -> Option<i64> {
        match self {
            Json::Int(n) => if i64::MIN <= n <= i64::MAX {
                Some(n as i64)
            } else {
                None
            },
            _ => None,
        }
    }

    /// The tree as an unsigned 64-bit integer.
    pub open spec fn to_u64(self) -> Option<u64> {
        match self {
            Json::Int(n) => if 0 <= n <= u64::MAX {
                Some(n as u64)
            } else {
                None
            },
            _ => None,
        }
    }

    /// The tree as a boolean.
    pub open spec fn to_bool(self) -> Option<bool> {
        match self {
            Json::Bool(b) => Some(b),
            _ => None,
        }
    }

    /// The tree as a string.
    pub open spec fn to_text(self) -> Option<Seq<char>> {
        match self {
            Json::Str(s) => Some(s),
            _ => None,
        }
    }
}

/// An array of strings.
pub open spec fn strings(items: Seq<Seq<char>>) -> Json {
    Json::Array(items.map_values(|s: Seq<char>| Json::Str(s)))
}

#[verifier::external_type_specification]
#[verifier::external_body]
pub struct ExValue(serde_json::Value);

/// The tree that a `serde_json::Value` holds.
pub uninterp spec fn json_of(v: serde_json::Value) -> Json;

/// `serde_json::Value::as_i64`: an integer in the range of `i64` is returned,
/// anything else gives `None`.
pub assume_specification[ serde_json::Value::as_i64 ](v: &serde_json::Value) -> (r: Option<i64>)
    ensures
        r == json_of(*v).to_i64(),
;

/// `serde_json::Value::as_u64`: an integer in the range of `u64` is returned,
/// anything else gives `None`.
pub assume_specification[ serde_json::Value::as_u64 ](v: &serde_json::Value) -> (r: Option<u64>)
    ensures
        r == json_of(*v).to_u64(),
;

/// `serde_json::Value::as_bool`: a boolean is returned, anything else gives
/// `None`.
pub assume_specification[ serde_json::Value::as_bool ](v: &serde_json::Value) -> (r: Option<bool>)
    ensures
        r == json_of(*v).to_bool(),
;

/// `serde_json::Value::as_str`: a string is returned, anything else gives
/// `None`.
pub assume_specification[ serde_json::Value::as_str ](v: &serde_json::Value) -> (r: Option<&str>)
    ensures
        r is Some <==> json_of(*v).to_text() is Some,
        r matches Some(s) ==> json_of(*v).to_text() == Some(s@),
;

/// `Clone` of `serde_json::Value`: the copy holds the same tree.
pub assume_specification[ <serde_json::Value as Clone>::clone ](v: &serde_json::Value) -> (r:
    serde_json::Value)
    ensures
        json_of(r) == json_of(*v),
;

/// `serde_json::Value::get` with a string: the member of an object under that
/// key, and `None` for a missing key or a value that is no object.
#[verifier::external_body]
pub(crate) fn get<'a>(v: &'a serde_json::Value, key: &str) -> (r: Option<&'a serde_json::Value>)
    ensures
        r is Some <==> json_of(*v).member(key@) is Some,
        r matches Some(item) ==> json_of(*v).member(key@) == Some(json_of(*item)),
{
    v.get(key)
}

/// `serde_json::Map::new` as a value: the object without members.
#[verifier::external_body]
pub(crate) fn object() -> (r: serde_json::Value)
    ensures
        json_of(r) == Json::Object(Map::empty()),
{
    serde_json::Value::Object(serde_json::Map::new())
}

/// Assignment through `IndexMut` of `serde_json::Value` with a string: the
/// object's member under `key` is now `item`, whether or not it had one.
#[verifier::external_body]
pub(crate) fn set(v: &mut serde_json::Value, key: &str, item: serde_json::Value)
    requires
        json_of(*old(v)) is Object,
    ensures
        json_of(*final(v)) == Json::Object(json_of(*old(v))->Object_0.insert(key@, json_of(item))),
{
    v[key] = item;
}

/// `serde_json::Value::from` a string slice.
#[verifier::external_body]
pub(crate) fn from_text(s: &str) -> (r: serde_json::Value)
    ensures
        json_of(r) == Json::Str(s@),
{
    serde_json::Value::from(s)
}

/// `serde_json::Value::from` an unsigned integer.
#[verifier::external_body]
pub(crate) fn from_u64(n: u64) -> (r: serde_json::Value)
    ensures
        json_of(r) == Json::Int(n as int),
{
    serde_json::Value::from(n)
}

/// `serde_json::Value::from` an optional signed integer: `None` is null.
#[verifier::external_body]
pub(crate) fn from_i64(n: Option<i64>) -> (r: serde_json::Value)
    ensures
        json_of(r) == (match n {
            Some(k) => Json::Int(k as int),
            None => Json::Null,
        }),
{
    serde_json::Value::from(n)
}

/// `serde_json::Value::from` a boolean.
#[verifier::external_body]
pub(crate) fn from_bool(b: bool) -> (r: serde_json::Value)
    ensures
        json_of(r) == Json::Bool(b),
{
    serde_json::Value::from(b)
}

/// `serde_json::Value::from` a vector of strings: the array of them, in order.
#[verifier::external_body]
pub(crate) fn from_strings(items: Vec<String>) -> (r: serde_json::Value)
    ensures
        json_of(r) == strings(text::texts(items@)),
{
    serde_json::Value::from(items)
}

// ----- members read as plain values -----

/// The member under `key` as an integer.
pub open spec fn i64_at(j: Json, key: Seq<char>) -> Option<i64> {
    match j.member(key) {
        Some(item) => item.to_i64(),
        None => None,
    }
}

/// The member under `key` as an unsigned integer.
pub open spec fn u64_at(j: Json, key: Seq<char>) -> Option<u64> {
    match j.member(key) {
        Some(item) => item.to_u64(),
        None => None,
    }
}

/// The member under `key` as a boolean.
pub open spec fn bool_at(j: Json, key: Seq<char>) -> Option<bool> {
    match j.member(key) {
        Some(item) => item.to_bool(),
        None => None,
    }
}

/// The member under `key` as a string.
pub open spec fn text_at(j: Json, key: Seq<char>) -> Option<Seq<char>> {
    match j.member(key) {
        Some(item) => item.to_text(),
        None => None,
    }
}

/// Reads the member under `key` as an integer.
pub fn i64_member(v: &serde_json::Value, key: &str) -> (r: Option<i64>)
    ensures
        r == i64_at(json_of(*v), key@),
{
    match get(v, key) {
        Some(item) => item.as_i64(),
        None => None,
    }
}

/// Reads the member under `key` as an unsigned integer.
pub fn u64_member(v: &serde_json::Value, key: &str) -> (r: Option<u64>)
    ensures
        r == u64_at(json_of(*v), key@),
{
    match get(v, key) {
        Some(item) => item.as_u64(),
        None => None,
    }
}

/// Reads the member under `key` as a boolean.
pub fn bool_member(v: &serde_json::Value, key: &str) -> (r: Option<bool>)
    ensures
        r == bool_at(json_of(*v), key@),
{
    match get(v, key) {
        Some(item) => item.as_bool(),
        None => None,
    }
}

/// Reads the member under `key` as a string.
pub fn text_member(v: &serde_json::Value, key: &str) -> (r: Option<String>)
    ensures
        text::opt_text(r) == text_at(json_of(*v), key@),
{
    match get(v, key) {
        Some(item) => match item.as_str() {
            Some(s) => Some(s.to_string()),
            None => None,
        },
        None => None,
    }
}

} // verus!
