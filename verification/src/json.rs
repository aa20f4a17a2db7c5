//! JSON values carried through the library (`serde_json::Value`), and the
//! few operations on them that the library's logic needs.
use vstd::prelude::*;

verus! {

#[verifier::external_type_specification]
#[verifier::external_body]
pub struct ExJsonValue(serde_json::Value);

/// What `Value::as_str` returns for a value: the text of a JSON string, or
/// nothing for any other kind of value.
pub uninterp spec fn json_str(v: serde_json::Value) -> Option<Seq<char>>;

/// What `serde_json::from_str::<Value>` followed by reading a top-level
/// string field gives for a text and a key.
pub uninterp spec fn json_field_str(text: Seq<char>, key: Seq<char>) -> Option<Seq<char>>;

/// `Value::String(s)`: a JSON string value, whose `as_str` gives `s` back.
#[verifier::external_body]
pub(crate) fn json_string(s: String) -> (v: serde_json::Value)
    ensures
        json_str(v) == Some(s@),
{
    serde_json::Value::String(s)
}

/// `Value::as_str`, copied into a `String`.
#[verifier::external_body]
pub(crate) fn json_as_string(v: &serde_json::Value) -> (r: Option<String>)
    ensures
        r is Some <==> json_str(*v) is Some,
        r matches Some(s) ==> Some(s@) == json_str(*v),
{
    v.as_str().map(|s| s.to_string())
}

/// `Value::clone` (derived by serde_json): a copy equal to the original.
pub assume_specification[ <serde_json::Value as Clone>::clone ](v: &serde_json::Value) -> (r: serde_json::Value)
    ensures
        r == *v,
;

/// Parses `text` as JSON and reads the string at top-level key `key`:
/// `serde_json::from_str::<Value>(text)` then `json[key].as_str()`.
#[verifier::external_body]
pub(crate) fn json_top_level_str(text: &str, key: &str) -> (r: Option<String>)
    ensures
        r is Some <==> json_field_str(text@, key@) is Some,
        r matches Some(s) ==> Some(s@) == json_field_str(text@, key@),
{
    match serde_json::from_str::<serde_json::Value>(text) {
        Ok(v) => v[key].as_str().map(|s| s.to_string()),
        Err(_) => None,
    }
}

/// What `serde_json::from_str::<Value>(text).unwrap_or_default()` gives.
pub uninterp spec fn json_parse_default(text: Seq<char>) -> serde_json::Value;

/// `serde_json::from_str::<Value>(text)`, with `Value::Null` when the text is
/// not JSON (`unwrap_or_default`).
#[verifier::external_body]
pub(crate) fn json_parse_or_null(text: &str) -> (v: serde_json::Value)
    ensures
        v == json_parse_default(text@),
{
    serde_json::from_str(text).unwrap_or_default()
}

/// What a tool's JSON input holds under one key, as far as the tools read it.
#[derive(Debug, Clone)]
pub enum JsonField {
    /// The key is absent (or the input is no object).
    Absent,
    /// The value is `null`.
    Null,
    /// A string.
    Str(String),
    /// A number that is a `u64`.
    U64(u64),
    /// Any other value.
    Other,
}

impl JsonField {
    /// `value[key].as_str()`.
    pub open spec fn as_str_view(&self) -> Option<Seq<char>> {
        match self {
            JsonField::Str(s) => Some(s@),
            _ => None,
        }
    }

    /// `value.get(key).is_some_and(|v| !v.is_null())`.
    pub open spec fn present(&self) -> bool {
        !(self is Absent || self is Null)
    }

    /// `value[key].as_u64()`.
    pub open spec fn as_u64_view(&self) -> Option<u64> {
        match self {
            JsonField::U64(n) => Some(*n),
            _ => None,
        }
    }

    /// The string, if the field holds one.
    pub fn text(&self) -> (r: Option<&String>)
        ensures
            r is Some <==> self is Str,
            r matches Some(s) ==> self.as_str_view() == Some(s@),
    {
        match self {
            JsonField::Str(s) => Some(s),
            _ => None,
        }
    }

    /// Whether the field is present and not `null`.
    pub fn is_present(&self) -> (b: bool)
        ensures
            b == self.present(),
    {
        match self {
            JsonField::Absent => false,
            JsonField::Null => false,
            _ => true,
        }
    }

    /// The number, if the field holds a `u64`.
    pub fn number(&self) -> (r: Option<u64>)
        ensures
            r == self.as_u64_view(),
    {
        match self {
            JsonField::U64(n) => Some(*n),
            _ => None,
        }
    }
}

} // verus!
