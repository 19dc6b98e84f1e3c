//! Reading JSON through `serde_json`.
//!
//! Parsing is `serde_json`'s. What a parsed value holds is described by
//! [`JsonView`], and the accessors here say what they read out of it.

use vstd::prelude::*;

verus! {

#[verifier::external_type_specification]
#[verifier::external_body]
pub struct ExValue(serde_json::Value);

/// A JSON document.
pub enum JsonView {
    Null,
    Bool(bool),
    /// A number, and its value when that is an unsigned integer of 64 bits.
    Number(Option<u64>),
    Text(Seq<char>),
    List(Seq<JsonView>),
    Object(Map<Seq<char>, JsonView>),
}

/// What a `serde_json::Value` holds.
pub uninterp spec fn json_view(v: serde_json::Value) -> JsonView;

/// What `serde_json::from_str` reads out of a text as a list of values, or the
/// message of the error it gives instead.
pub uninterp spec fn json_list(text: Seq<char>) -> Result<Seq<JsonView>, Seq<char>>;

pub open spec fn json_views(v: Seq<serde_json::Value>) -> Seq<JsonView> {
    v.map_values(|x: serde_json::Value| json_view(x))
}

impl JsonView {
    /// The member `key`, when this is an object that has one.
    pub open spec fn member(self, key: Seq<char>) -> Option<JsonView> {
        match self {
            JsonView::Object(m) => if m.contains_key(key) {
                Some(m[key])
            } else {
                None
            },
            _ => None,
        }
    }

    pub open spec fn text(self) -> Option<Seq<char>> {
        match self {
            JsonView::Text(s) => Some(s),
            _ => None,
        }
    }

    pub open spec fn number(self) -> Option<u64> {
        match self {
            JsonView::Number(n) => n,
            _ => None,
        }
    }

    /// The string member `key`.
    pub open spec fn text_at(self, key: Seq<char>) -> Option<Seq<char>> {
        match self.member(key) {
            Some(v) => v.text(),
            None => None,
        }
    }

    /// The unsigned integer member `key`.
    pub open spec fn number_at(self, key: Seq<char>) -> Option<u64> {
        match self.member(key) {
            Some(v) => v.number(),
            None => None,
        }
    }
}

/// `serde_json::from_str`, asked for a list of values: gives the values, or
/// fails with the message `serde_json` gives, and the text alone decides which.
#[verifier::external_body]
pub(crate) fn parse_list(text: &str) -> (r: Result<Vec<serde_json::Value>, String>)
    ensures
        match r {
            Ok(v) => json_list(text@) == Ok::<Seq<JsonView>, Seq<char>>(json_views(v@)),
            Err(e) => json_list(text@) == Err::<Seq<JsonView>, Seq<char>>(e@),
        },
{
    serde_json::from_str::<Vec<serde_json::Value>>(text).map_err(|e| e.to_string())
}

/// `serde_json::Value::get` with a string index: the member of that name when
/// the value is an object that has one, and nothing otherwise.
#[verifier::external_body]
pub(crate) fn get<'a>(v: &'a serde_json::Value, key: &str) -> (r: Option<&'a serde_json::Value>)
    ensures
        match r {
            Some(x) => json_view(*v).member(key@) == Some(json_view(*x)),
            None => json_view(*v).member(key@) is None,
        },
{
    v.get(key)
}

/// `serde_json::Value::as_str`: the string when the value is one.
#[verifier::external_body]
pub(crate) fn as_text(v: &serde_json::Value) -> (r: Option<&str>)
    ensures
        match r {
            Some(s) => json_view(*v).text() == Some(s@),
            None => json_view(*v).text() is None,
        },
{
    v.as_str()
}

/// `serde_json::Value::as_u64`: the number when the value is an unsigned
/// integer of 64 bits.
#[verifier::external_body]
pub(crate) fn as_number(v: &serde_json::Value) -> (r: Option<u64>)
    ensures
        r == json_view(*v).number(),
{
    v.as_u64()
}

/// The string member `key` of `v`.
pub fn text_at(v: &serde_json::Value, key: &str) -> (r: Option<String>)
    ensures
        match r {
            Some(s) => json_view(*v).text_at(key@) == Some(s@),
            None => json_view(*v).text_at(key@) is None,
        },
{
    match get(v, key) {
        Some(x) => match as_text(x) {
            Some(s) => Some(s.to_owned()),
            None => None,
        },
        None => None,
    }
}

/// The unsigned integer member `key` of `v`.
pub fn number_at(v: &serde_json::Value, key: &str) -> (r: Option<u64>)
    ensures
        r == json_view(*v).number_at(key@),
{
    match get(v, key) {
        Some(x) => as_number(x),
        None => None,
    }
}

} // verus!
