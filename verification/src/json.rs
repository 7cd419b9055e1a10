//! JSON documents the system's tools and web services return, as plain
//! values: `serde_json` parses, and the library reads the fields it needs.
use vstd::prelude::*;
use crate::text::{parse_u64, parsed_u64};

verus! {

#[verifier::external_type_specification]
#[verifier::external_body]
pub struct ExJsonValue(serde_json::Value);

/// A JSON value. A number is kept as the text `serde_json` writes for it;
/// an object as its members in the order `serde_json` keeps them (each key
/// once).
pub enum JsonValue {
    Null,
    Bool(bool),
    Number(String),
    Str(String),
    Array(Vec<JsonValue>),
    Object(Vec<(String, JsonValue)>),
}

/// What `serde_json::from_slice::<serde_json::Value>` reads from `bytes`,
/// converted member for member: `None` when the bytes are not JSON.
pub uninterp spec fn json_of(bytes: Seq<u8>) -> Option<JsonValue>;

/// Converts a parsed `serde_json::Value` one variant for one, numbers
/// written with `Display`.
#[verifier::external_body]
fn from_serde(v: serde_json::Value) -> JsonValue {
    match v {
        serde_json::Value::Null => JsonValue::Null,
        serde_json::Value::Bool(b) => JsonValue::Bool(b),
        serde_json::Value::Number(n) => JsonValue::Number(n.to_string()),
        serde_json::Value::String(s) => JsonValue::Str(s),
        serde_json::Value::Array(a) => JsonValue::Array(a.into_iter().map(from_serde).collect()),
        serde_json::Value::Object(o) => JsonValue::Object(o.into_iter().map(|(k, v)| (k, from_serde(v))).collect()),
    }
}

/// `serde_json::from_slice::<serde_json::Value>`: the document in `bytes`,
/// or `None` when they are not JSON. What it reads is named `json_of(bytes)`;
/// the JSON grammar is left to `serde_json`.
#[verifier::external_body]
pub fn parse_json(bytes: &[u8]) -> (r: Option<JsonValue>)
    ensures
        r == json_of(bytes@),
{
    serde_json::from_slice::<serde_json::Value>(bytes).ok().map(from_serde)
}

// ── Reading fields ──────────────────────────────────────────────────────────

/// The value of `key` among object members, from member `i` on.
pub open spec fn member_from(m: Seq<(String, JsonValue)>, key: Seq<char>, i: int) -> Option<JsonValue>
    decreases m.len() - i,
{
    if i < 0 || i >= m.len() {
        None
    } else if m[i].0@ == key {
        Some(m[i].1)
    } else {
        member_from(m, key, i + 1)
    }
}

/// `v[key]`: the member `key` of an object; nothing for another value.
pub open spec fn field(v: JsonValue, key: Seq<char>) -> Option<JsonValue> {
    match v {
        JsonValue::Object(m) => member_from(m@, key, 0),
        _ => None,
    }
}

/// `as_str`: the text of a string value.
pub open spec fn text(v: Option<JsonValue>) -> Option<Seq<char>> {
    match v {
        Some(JsonValue::Str(s)) => Some(s@),
        _ => None,
    }
}

/// `as_array`: the items of an array value.
pub open spec fn items(v: Option<JsonValue>) -> Option<Seq<JsonValue>> {
    match v {
        Some(JsonValue::Array(a)) => Some(a@),
        _ => None,
    }
}

/// `as_u64`: a number that is a non-negative integer.
pub open spec fn whole(v: Option<JsonValue>) -> Option<u64> {
    match v {
        Some(JsonValue::Number(t)) => parsed_u64(t@),
        _ => None,
    }
}

/// A text, or the empty text.
pub open spec fn or_blank(t: Option<Seq<char>>) -> Seq<char> {
    match t {
        Some(s) => s,
        None => seq![],
    }
}

pub open spec fn deref_opt(r: Option<&JsonValue>) -> Option<JsonValue> {
    match r {
        Some(x) => Some(*x),
        None => None,
    }
}

/// `v[key]`.
pub fn get<'a>(v: &'a JsonValue, key: &str) -> (r: Option<&'a JsonValue>)
    ensures
        deref_opt(r) == field(*v, key@),
{
    match v {
        JsonValue::Object(m) => {
            let mut i: usize = 0;
            while i < m.len()
                invariant
                    i <= m@.len(),
                    member_from(m@, key@, 0) == member_from(m@, key@, i as int),
                    field(*v, key@) == member_from(m@, key@, 0),
                decreases m.len() - i,
            {
                if crate::text::str_eq(m[i].0.as_str(), key) {
                    return Some(&m[i].1);
                }
                i += 1;
            }
            None
        },
        _ => None,
    }
}

/// `as_str` of an optional value.
pub fn as_text<'a>(v: Option<&'a JsonValue>) -> (r: Option<&'a str>)
    ensures
        match text(deref_opt(v)) {
            Some(t) => r matches Some(s) && s@ == t,
            None => r is None,
        },
{
    match v {
        Some(JsonValue::Str(s)) => Some(s.as_str()),
        _ => None,
    }
}

/// `as_array` of an optional value.
pub fn as_items<'a>(v: Option<&'a JsonValue>) -> (r: Option<&'a Vec<JsonValue>>)
    ensures
        match items(deref_opt(v)) {
            Some(a) => r matches Some(x) && x@ == a,
            None => r is None,
        },
{
    match v {
        Some(JsonValue::Array(a)) => Some(a),
        _ => None,
    }
}

/// `as_u64` of an optional value.
pub fn as_whole(v: Option<&JsonValue>) -> (r: Option<u64>)
    ensures
        r == whole(deref_opt(v)),
{
    match v {
        Some(JsonValue::Number(t)) => parse_u64(t.as_str()),
        _ => None,
    }
}

/// The text of `v[key]`, or the empty text.
pub fn text_or_blank(v: &JsonValue, key: &str) -> (r: String)
    ensures
        r@ == or_blank(text(field(*v, key@))),
{
    match as_text(get(v, key)) {
        Some(s) => crate::text::owned(s),
        None => String::new(),
    }
}

/// A boolean, when the value is one.
pub open spec fn flag(v: Option<JsonValue>) -> Option<bool> {
    match v {
        Some(JsonValue::Bool(b)) => Some(b),
        _ => None,
    }
}

/// The first of two texts that is present, or the empty string.
pub open spec fn text_or(a: Option<Seq<char>>, b: Option<Seq<char>>) -> Seq<char> {
    match a {
        Some(t) => t,
        None => or_blank(b),
    }
}

/// A boolean value.
pub fn as_bool(v: Option<&JsonValue>) -> (r: Option<bool>)
    ensures
        r == flag(deref_opt(v)),
{
    match v {
        Some(JsonValue::Bool(b)) => Some(*b),
        _ => None,
    }
}

/// The text of the first of two members that holds one, or the empty string.
pub fn text_of_either(v: &JsonValue, first: &str, second: &str) -> (r: String)
    ensures
        r@ == text_or(text(field(*v, first@)), text(field(*v, second@))),
{
    match as_text(get(v, first)) {
        Some(s) => crate::text::owned(s),
        None => text_or_blank(v, second),
    }
}

} // verus!
