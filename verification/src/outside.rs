use vstd::prelude::*;

use crate::json::{JVal, JsonValue};

verus! {

/// Relies on str::chars: yields the characters of the string in order.
#[verifier::external_body]
pub fn chars_of(s: &str) -> (r: Vec<char>)
    ensures
        r@ == s@,
{
    s.chars().collect()
}

/// Relies on String's FromIterator<char>: collects the characters in order.
#[verifier::external_body]
pub fn string_from_chars(v: &Vec<char>) -> (r: String)
    ensures
        r@ == v@,
{
    v.iter().collect()
}

/// Relies on char::from_u32: the scalar value with the given code, or None
/// for surrogate or out-of-range codes.
#[verifier::external_body]
pub fn char_from_u32(u: u32) -> (r: Option<char>)
    ensures
        u < 0xD800 || (0xE000 <= u && u <= 0x10FFFF) ==> r == Some(u as char),
        !(u < 0xD800 || (0xE000 <= u && u <= 0x10FFFF)) ==> r is None,
{
    char::from_u32(u)
}

/// What serde_json's parser returns for a given text, as this library's
/// model: the result of `serde_json::from_str::<serde_json::Value>` depends
/// on the text alone.
pub uninterp spec fn json_of(s: Seq<char>) -> Option<JVal>;

#[verifier::external_type_specification]
#[verifier::external_body]
pub struct ExSerdeValue(serde_json::Value);

/// Relies on serde_json::from_str::<serde_json::Value>: parses the text as
/// one JSON document, or fails.
#[verifier::external_body]
pub fn parse_json(s: &str) -> (r: Option<JsonValue>)
    ensures
        r is Some <==> json_of(s@) is Some,
        r matches Some(v) ==> Some(v@) == json_of(s@),
{
    serde_json::from_str::<serde_json::Value>(s).ok().map(convert_value)
}

/// Relies on serde_json::Value: carries each variant over one for one;
/// numbers keep serde_json's rendering of their literal.
#[verifier::external_body]
fn convert_value(v: serde_json::Value) -> JsonValue {
    match v {
        serde_json::Value::Null => JsonValue::Null,
        serde_json::Value::Bool(b) => JsonValue::Bool(b),
        serde_json::Value::Number(n) => JsonValue::Number(n.to_string()),
        serde_json::Value::String(s) => JsonValue::Str(s),
        serde_json::Value::Array(a) => JsonValue::Array(
            a.into_iter().map(convert_value).collect(),
        ),
        serde_json::Value::Object(m) => JsonValue::Object(
            m.into_iter().map(|p| (p.0, convert_value(p.1))).collect(),
        ),
    }
}

/// What chrono's datetime parser returns for a given text: the instant as
/// milliseconds since the Unix epoch. The result depends on the text alone.
pub uninterp spec fn ts_of(s: Seq<char>) -> Option<i64>;

/// Relies on chrono's FromStr for DateTime<Utc> and on
/// DateTime::timestamp_millis: parses an RFC 3339 timestamp and returns it
/// as epoch milliseconds.
#[verifier::external_body]
pub fn parse_timestamp(s: &str) -> (r: Option<i64>)
    ensures
        r == ts_of(s@),
{
    s.parse::<chrono::DateTime<chrono::Utc>>().ok().map(|d| d.timestamp_millis())
}

} // verus!
