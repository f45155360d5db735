//! JSON parsing through serde_json.
//!
//! Parsing itself is the outside crate's work; the parsed tree is carried
//! over into [`crate::json::JsonValue`] field by field.  What a given text
//! parses to is named by [`spec_json_parse`]; everything downstream is
//! stated over that name.

use vstd::prelude::*;
use crate::json::{JsonModel, JsonValue};

verus! {

#[verifier::external_type_specification]
#[verifier::external_body]
pub struct ExValue(serde_json::Value);

/// The crate's model of what a parsed serde_json value holds.
pub uninterp spec fn spec_value_content(v: serde_json::Value) -> JsonModel;

/// What JSON parsing yields on a text: the parsed value, or nothing on
/// malformed JSON.
pub uninterp spec fn spec_json_parse(s: Seq<char>) -> Option<JsonModel>;

/// Relies on `serde_json::from_str`: the result is a function of the text
/// alone, and fails exactly on malformed JSON.
#[verifier::external_body]
fn parse_value(s: &str) -> (r: Option<serde_json::Value>)
    ensures
        match r {
            Some(v) => spec_json_parse(s@) == Some(spec_value_content(v)),
            None => spec_json_parse(s@) is None,
        },
{
    serde_json::from_str::<serde_json::Value>(s).ok()
}

/// Relies on the shape of `serde_json::Value`: each arm carries the
/// matching JSON data over; a number becomes a 64-bit integer when it has
/// one, else the decimal text serde prints for it.
#[verifier::external_body]
fn value_to_json(v: &serde_json::Value) -> (r: JsonValue)
    ensures
        r.model() == spec_value_content(*v),
{
    match v {
        serde_json::Value::Null => JsonValue::Null,
        serde_json::Value::Bool(b) => JsonValue::Bool(*b),
        serde_json::Value::Number(n) => match n.as_i64() {
            Some(i) => JsonValue::Int(i),
            None => JsonValue::Num(n.to_string()),
        },
        serde_json::Value::String(s) => JsonValue::Str(s.clone()),
        serde_json::Value::Array(a) => JsonValue::Arr(a.iter().map(value_to_json).collect()),
        serde_json::Value::Object(o) => JsonValue::Obj(
            o.iter().map(|(k, x)| (k.clone(), value_to_json(x))).collect(),
        ),
    }
}

/// JSON parsing into the crate's value type.
pub fn json_parse(s: &str) -> (r: Option<JsonValue>)
    ensures
        match r {
            Some(v) => spec_json_parse(s@) == Some(v.model()),
            None => spec_json_parse(s@) is None,
        },
{
    match parse_value(s) {
        Some(v) => Some(value_to_json(&v)),
        None => None,
    }
}

} // verus!
