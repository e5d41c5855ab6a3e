use vstd::prelude::*;

use crate::value::{wf, JsonValue};

verus! {

/// serde_json's document type; a parsed document passes through it only.
#[verifier::external_type_specification]
#[verifier::external_body]
pub struct ExSerdeValue(serde_json::Value);

/// The document that the JSON text `s` holds, if it holds one.
pub uninterp spec fn json_of_text(s: Seq<char>) -> Option<JsonValue>;

/// The document that the JSON text in the bytes `b` holds, if they hold one.
pub uninterp spec fn json_of_bytes(b: Seq<u8>) -> Option<JsonValue>;

/// Relies on serde_json::from_str: whether `s` is JSON text, and which
/// document it holds, depends on `s` alone; a parsed object is a
/// serde_json::Map, which holds each key once.
#[verifier::external_body]
pub(crate) fn parse_text(s: &str) -> (r: Option<JsonValue>)
    ensures
        r == json_of_text(s@),
        r matches Some(v) ==> wf(v),
{
    serde_json::from_str::<serde_json::Value>(s).ok().map(from_serde)
}

/// Relies on serde_json::from_slice: as `parse_text`, on bytes; where they are
/// no JSON text, the error is serde_json::Error's message.
#[verifier::external_body]
pub(crate) fn parse_bytes(b: &[u8]) -> (r: Result<JsonValue, String>)
    ensures
        r is Ok <==> json_of_bytes(b@) is Some,
        r matches Ok(v) ==> json_of_bytes(b@) == Some(v) && wf(v),
{
    match serde_json::from_slice::<serde_json::Value>(b) {
        Ok(v) => Ok(from_serde(v)),
        Err(e) => Err(e.to_string()),
    }
}

/// Converts a serde_json document into a `JsonValue`, node for node; a number
/// becomes its text as serde_json writes it.
#[verifier::external_body]
fn from_serde(v: serde_json::Value) -> JsonValue {
    match v {
        serde_json::Value::Null => JsonValue::Null,
        serde_json::Value::Bool(b) => JsonValue::Bool(b),
        serde_json::Value::Number(n) => JsonValue::Number(n.to_string()),
        serde_json::Value::String(s) => JsonValue::String(s),
        serde_json::Value::Array(a) => JsonValue::Array(a.into_iter().map(from_serde).collect()),
        serde_json::Value::Object(m) => JsonValue::Object(
            m.into_iter().map(|(k, v)| (k, from_serde(v))).collect(),
        ),
    }
}

} // verus!
