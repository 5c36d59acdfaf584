//! JSON text: documents are parsed and printed by `serde_json`.
use vstd::prelude::*;

use serde_json::Value;

use crate::json::{Json, JsonNumber, JsonValue};

verus! {

/// A document of `serde_json`, carried through without being read.
#[verifier::external_type_specification]
#[verifier::external_body]
pub struct ExSerdeValue(Value);

/// The `serde_json::Value` that holds the same document: numbers, strings,
/// arrays and object entries carried over one for one; a float whose text
/// does not parse as a number becomes `null`. Nothing is stated of it.
#[verifier::external_body]
fn to_serde_value(v: &JsonValue) -> Value {
    match v {
        JsonValue::Null => Value::Null,
        JsonValue::Bool(b) => Value::Bool(*b),
        JsonValue::Number(JsonNumber::PosInt(u)) => Value::from(*u),
        JsonValue::Number(JsonNumber::NegInt(i)) => Value::from(*i),
        JsonValue::Number(JsonNumber::Float(t)) => t.parse().map_or(Value::Null, Value::Number),
        JsonValue::String(s) => Value::String(s.clone()),
        JsonValue::Array(items) => Value::Array(items.iter().map(to_serde_value).collect()),
        JsonValue::Object(m) => Value::Object(m.iter().map(|(k, x)| (k.clone(), to_serde_value(x))).collect()),
    }
}

/// The document of a `Value`: integers that fit in `u64` or
/// `i64` as such, other numbers by their text, object entries in the map's
/// order. Nothing is stated of it.
#[verifier::external_body]
fn from_serde_value(v: &Value) -> JsonValue {
    match v {
        Value::Null => JsonValue::Null,
        Value::Bool(b) => JsonValue::Bool(*b),
        Value::Number(n) => JsonValue::Number(match (n.as_u64(), n.as_i64()) {
            (Some(u), _) => JsonNumber::PosInt(u),
            (None, Some(i)) => JsonNumber::NegInt(i),
            _ => JsonNumber::Float(n.to_string()),
        }),
        Value::String(s) => JsonValue::String(s.clone()),
        Value::Array(a) => JsonValue::Array(a.iter().map(from_serde_value).collect()),
        Value::Object(m) => JsonValue::Object(m.iter().map(|(k, x)| (k.clone(), from_serde_value(x))).collect()),
    }
}

/// The text that `serde_json::to_string_pretty` gives for a document, or
/// the empty text where it fails.
pub uninterp spec fn pretty_json(v: Json) -> Seq<char>;

/// The text that `serde_json::to_string` gives for a document, or the empty
/// text where it fails.
pub uninterp spec fn compact_json(v: Json) -> Seq<char>;

/// What `serde_json::from_str` makes of a text: the document, or the text
/// of the error.
pub uninterp spec fn json_parse(text: Seq<char>) -> Result<Json, Seq<char>>;

/// Calls `serde_json::to_string_pretty` on the document and takes the empty
/// text where it fails: the result is `pretty_json` of the document.
#[verifier::external_body]
pub(crate) fn pretty_json_text(v: &JsonValue) -> (r: String)
    ensures
        r@ == pretty_json(v@),
{
    serde_json::to_string_pretty(&to_serde_value(v)).unwrap_or_default()
}

/// Calls `serde_json::to_string` on the document and takes the empty text
/// where it fails: the result is `compact_json` of the document.
#[verifier::external_body]
pub(crate) fn compact_json_text(v: &JsonValue) -> (r: String)
    ensures
        r@ == compact_json(v@),
{
    serde_json::to_string(&to_serde_value(v)).unwrap_or_default()
}

/// Calls `serde_json::from_str` on the text: the document it reads, or the
/// displayed error, as `json_parse` names them.
#[verifier::external_body]
pub(crate) fn parse_json(text: &str) -> (r: Result<JsonValue, String>)
    ensures
        match r {
            Ok(v) => json_parse(text@) == Ok::<Json, Seq<char>>(v@),
            Err(e) => json_parse(text@) == Err::<Json, Seq<char>>(e@),
        },
{
    match serde_json::from_str::<Value>(text) {
        Ok(v) => Ok(from_serde_value(&v)),
        Err(e) => Err(e.to_string()),
    }
}

/// What `serde_json::from_slice` makes of bytes: the document, or the text
/// of the error.
pub uninterp spec fn json_parse_bytes(body: Seq<u8>) -> Result<Json, Seq<char>>;

/// Calls `serde_json::from_slice` on the bytes: the document it reads, or
/// the displayed error, as `json_parse_bytes` names them.
#[verifier::external_body]
pub(crate) fn parse_json_bytes(body: &[u8]) -> (r: Result<JsonValue, String>)
    ensures
        match r {
            Ok(v) => json_parse_bytes(body@) == Ok::<Json, Seq<char>>(v@),
            Err(e) => json_parse_bytes(body@) == Err::<Json, Seq<char>>(e@),
        },
{
    match serde_json::from_slice::<Value>(body) {
        Ok(v) => Ok(from_serde_value(&v)),
        Err(e) => Err(e.to_string()),
    }
}

} // verus!
