//! JSON values: what a `serde_json::Value` holds, and the operations on it that the translation
//! uses.
//!
//! The functions marked `external_body` are the only places where `serde_json` is called; their
//! contracts say over [`held`] what the called function does.

use serde_json::Value;
use vstd::prelude::*;

verus! {

/// `serde_json::Value`, the JSON value of the outside crate.
#[verifier::external_type_specification]
#[verifier::external_body]
pub struct ExValue(serde_json::Value);

/// What a JSON value is.
///
/// An integer is any number that `serde_json` keeps as one, from the least `i64` to the greatest
/// `u64`. Every other number is kept as a double and is told apart by its bit pattern.
pub enum JsonView {
    Null,
    Bool(bool),
    Int(int),
    Real(u64),
    Text(Seq<char>),
    List(Seq<JsonView>),
    Object(Map<Seq<char>, JsonView>),
}

impl JsonView {
    /// The member of an object under `key`.
    pub open spec fn get(self, key: Seq<char>) -> Option<JsonView> {
        match self {
            JsonView::Object(m) => if m.contains_key(key) {
                Some(m[key])
            } else {
                None
            },
            _ => None,
        }
    }

    /// The characters of a string.
    pub open spec fn as_text(self) -> Option<Seq<char>> {
        match self {
            JsonView::Text(s) => Some(s),
            _ => None,
        }
    }

    /// The value of an integer in the range of `i64`.
    pub open spec fn as_i64(self) -> Option<i64> {
        match self {
            JsonView::Int(n) => if i64::MIN <= n <= i64::MAX {
                Some(n as i64)
            } else {
                None
            },
            _ => None,
        }
    }

    /// The elements of an array.
    pub open spec fn as_list(self) -> Option<Seq<JsonView>> {
        match self {
            JsonView::List(s) => Some(s),
            _ => None,
        }
    }

    /// The text under `key`, where there is one.
    pub open spec fn text_at(self, key: Seq<char>) -> Option<Seq<char>> {
        match self.get(key) {
            Some(v) => v.as_text(),
            None => None,
        }
    }

    /// The text under `key`, where there is one and it is not empty.
    pub open spec fn filled_text_at(self, key: Seq<char>) -> Option<Seq<char>> {
        match self.text_at(key) {
            Some(s) => if s.len() > 0 {
                Some(s)
            } else {
                None
            },
            None => None,
        }
    }

    /// The integer under `key`, where there is one.
    pub open spec fn i64_at(self, key: Seq<char>) -> Option<i64> {
        match self.get(key) {
            Some(v) => v.as_i64(),
            None => None,
        }
    }

    /// The array under `key`, where there is one.
    pub open spec fn list_at(self, key: Seq<char>) -> Option<Seq<JsonView>> {
        match self.get(key) {
            Some(v) => v.as_list(),
            None => None,
        }
    }

    /// The object with one member changed or added.
    pub open spec fn with(self, key: Seq<char>, v: JsonView) -> JsonView {
        match self {
            JsonView::Object(m) => JsonView::Object(m.insert(key, v)),
            _ => self,
        }
    }
}

/// The object without members.
pub open spec fn empty_object() -> JsonView {
    JsonView::Object(Map::empty())
}

/// What a `serde_json::Value` holds.
pub uninterp spec fn held(v: serde_json::Value) -> JsonView;

/// What each of the values holds.
pub open spec fn held_all(vs: Seq<serde_json::Value>) -> Seq<JsonView> {
    vs.map_values(|v: serde_json::Value| held(v))
}

/// What an optional value holds.
pub open spec fn held_opt(v: Option<serde_json::Value>) -> Option<JsonView> {
    match v {
        Some(x) => Some(held(x)),
        None => None,
    }
}

/// What `serde_json::from_str` makes of a text: the value, or the message of the error.
pub uninterp spec fn parsed(text: Seq<char>) -> Result<JsonView, Seq<char>>;

/// The compact text that `serde_json` writes for a value.
pub uninterp spec fn json_text(v: JsonView) -> Seq<char>;

// ---- reading ----

/// `Value::get` with a string key: the member of an object under that key, and nothing for any
/// other value.
#[verifier::external_body]
pub(crate) fn get<'a>(v: &'a Value, key: &str) -> (r: Option<&'a Value>)
    ensures
        match r {
            Some(x) => held(*v).get(key@) == Some(held(*x)),
            None => held(*v).get(key@) is None,
        },
{
    v.get(key)
}

/// `Value::as_str`: the characters of a string, and nothing for any other value.
#[verifier::external_body]
pub(crate) fn as_text<'a>(v: &'a Value) -> (r: Option<&'a str>)
    ensures
        match r {
            Some(s) => held(*v).as_text() == Some(s@),
            None => held(*v).as_text() is None,
        },
{
    v.as_str()
}

/// `Value::as_i64`: the value of an integer in the range of `i64`, and nothing for any other
/// value.
#[verifier::external_body]
pub(crate) fn as_i64(v: &Value) -> (r: Option<i64>)
    ensures
        r == held(*v).as_i64(),
{
    v.as_i64()
}

/// `Value::as_array`: the elements of an array, and nothing for any other value.
#[verifier::external_body]
pub(crate) fn as_list<'a>(v: &'a Value) -> (r: Option<&'a Vec<Value>>)
    ensures
        match r {
            Some(s) => held(*v).as_list() == Some(held_all(s@)),
            None => held(*v).as_list() is None,
        },
{
    v.as_array()
}

/// `Value::is_null`: whether the value is null.
#[verifier::external_body]
pub(crate) fn is_null(v: &Value) -> (r: bool)
    ensures
        r == (held(*v) is Null),
{
    v.is_null()
}

/// `Clone::clone` of a `Value`: a value that holds the same.
pub assume_specification[ <serde_json::Value as Clone>::clone ](v: &serde_json::Value) -> (r:
    serde_json::Value)
    ensures
        held(r) == held(*v),
;

// ---- text ----

/// `serde_json::from_str`: the value that the text denotes, or the message of the error. Which
/// texts denote which values is [`parsed`].
#[verifier::external_body]
pub(crate) fn parse(text: &str) -> (r: Result<Value, String>)
    ensures
        match r {
            Ok(v) => parsed(text@) == Ok::<JsonView, Seq<char>>(held(v)),
            Err(m) => parsed(text@) == Err::<JsonView, Seq<char>>(m@),
        },
{
    serde_json::from_str(text).map_err(|e: serde_json::Error| e.to_string())
}

/// `Display` of a `Value`: its compact text, which follows from what the value holds because the
/// members of an object are kept in the order of their keys. What that text is, is [`json_text`].
#[verifier::external_body]
pub(crate) fn print(v: &Value) -> (r: String)
    ensures
        r@ == json_text(held(*v)),
{
    v.to_string()
}

// ---- building ----

/// `Value::Null`: a value that holds null.
#[verifier::external_body]
pub(crate) fn null() -> (r: Value)
    ensures
        held(r) == JsonView::Null,
{
    Value::Null
}

/// `Value::Bool`: a value that holds the truth value.
#[verifier::external_body]
pub(crate) fn boolean(b: bool) -> (r: Value)
    ensures
        held(r) == JsonView::Bool(b),
{
    Value::Bool(b)
}

/// `Value::from` on a `u64`: a value that holds the number as an integer.
#[verifier::external_body]
pub(crate) fn number(n: u64) -> (r: Value)
    ensures
        held(r) == JsonView::Int(n as int),
{
    Value::from(n)
}

/// `Value::from` on a string slice: a value that holds the same characters.
#[verifier::external_body]
pub(crate) fn text(s: &str) -> (r: Value)
    ensures
        held(r) == JsonView::Text(s@),
{
    Value::from(s)
}

/// `Value::Array`: a value that holds the elements, in their order.
#[verifier::external_body]
pub(crate) fn list(vs: Vec<Value>) -> (r: Value)
    ensures
        held(r) == JsonView::List(held_all(vs@)),
{
    Value::Array(vs)
}

/// `Value::Object` of `serde_json::Map::new`: a value that holds an object without members.
#[verifier::external_body]
pub(crate) fn object() -> (r: Value)
    ensures
        held(r) == empty_object(),
{
    Value::Object(serde_json::Map::new())
}

/// `IndexMut` of a `Value` with a string key, on an object: the member under that key becomes the
/// given value, every other member stays. On a value that is not an object the outside function
/// panics, but for null.
#[verifier::external_body]
pub(crate) fn set(v: &mut Value, key: &str, x: Value)
    requires
        held(*old(v)) is Object,
    ensures
        held(*final(v)) == held(*old(v)).with(key@, held(x)),
{
    v[key] = x;
}

// ---- compositions ----

/// The text under `key`, where there is one.
pub(crate) fn text_at<'a>(v: &'a Value, key: &str) -> (r: Option<&'a str>)
    ensures
        match r {
            Some(s) => held(*v).text_at(key@) == Some(s@),
            None => held(*v).text_at(key@) is None,
        },
{
    match get(v, key) {
        Some(x) => as_text(x),
        None => None,
    }
}

/// The text under `key`, where there is one and it is not empty.
pub(crate) fn filled_text_at<'a>(v: &'a Value, key: &str) -> (r: Option<&'a str>)
    ensures
        match r {
            Some(s) => held(*v).filled_text_at(key@) == Some(s@),
            None => held(*v).filled_text_at(key@) is None,
        },
{
    match text_at(v, key) {
        Some(s) => if s.is_empty() {
            None
        } else {
            Some(s)
        },
        None => None,
    }
}

/// The integer under `key`, where there is one.
pub(crate) fn i64_at(v: &Value, key: &str) -> (r: Option<i64>)
    ensures
        r == held(*v).i64_at(key@),
{
    match get(v, key) {
        Some(x) => as_i64(x),
        None => None,
    }
}

/// The array under `key`, where there is one.
pub(crate) fn list_at<'a>(v: &'a Value, key: &str) -> (r: Option<&'a Vec<Value>>)
    ensures
        match r {
            Some(s) => held(*v).list_at(key@) == Some(held_all(s@)),
            None => held(*v).list_at(key@) is None,
        },
{
    match get(v, key) {
        Some(x) => as_list(x),
        None => None,
    }
}

/// The object with the one member `key: x`.
pub(crate) fn object_of(key: &str, x: Value) -> (r: Value)
    ensures
        held(r) == empty_object().with(key@, held(x)),
{
    let mut v: Value = object();
    set(&mut v, key, x);
    v
}

/// The member under `key`, or the given value where there is none.
pub open spec fn member_or(v: JsonView, key: Seq<char>, default: JsonView) -> JsonView {
    match v.get(key) {
        Some(x) => x,
        None => default,
    }
}

/// The object `{"type": kind}`.
pub open spec fn typed(kind: Seq<char>) -> JsonView {
    empty_object().with("type"@, JsonView::Text(kind))
}

/// The JSON value that a text denotes.
pub open spec fn denoted(text: Seq<char>) -> Option<JsonView> {
    match parsed(text) {
        Ok(v) => Some(v),
        Err(_) => None,
    }
}

/// A copy of the member under `key`, or the given value where there is none.
pub(crate) fn copy_or(v: &Value, key: &str, default: Value) -> (r: Value)
    ensures
        held(r) == member_or(held(*v), key@, held(default)),
{
    match get(v, key) {
        Some(x) => x.clone(),
        None => default,
    }
}

/// The object `{"type": kind}`.
pub(crate) fn typed_object(kind: &str) -> (r: Value)
    ensures
        held(r) == typed(kind@),
{
    object_of("type", text(kind))
}

/// The JSON value that a text denotes.
pub(crate) fn denoted_value(s: &str) -> (r: Option<Value>)
    ensures
        held_opt(r) == denoted(s@),
{
    match parse(s) {
        Ok(v) => Some(v),
        Err(_) => None,
    }
}

/// The object with one more member, where there is a value for it.
pub open spec fn with_some(v: JsonView, key: Seq<char>, x: Option<JsonView>) -> JsonView {
    match x {
        Some(x) => v.with(key, x),
        None => v,
    }
}

/// Sets a member where there is a value for it.
pub(crate) fn set_some(v: &mut Value, key: &str, x: Option<Value>)
    requires
        held(*old(v)) is Object,
    ensures
        held(*final(v)) == with_some(held(*old(v)), key@, held_opt(x)),
        held(*final(v)) is Object,
{
    if let Some(x) = x {
        set(v, key, x);
    }
}

} // verus!
