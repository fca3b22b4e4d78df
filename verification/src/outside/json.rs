//! JSON of the `serde_json` crate.

use crate::text::opt_view;
use vstd::prelude::*;

verus! {

/// The value of the `serde_json` crate, which `convert` reads.
#[verifier::external_type_specification]
#[verifier::external_body]
pub struct ExValue(serde_json::Value);

/// A JSON value. Members stand in the order of their keys, each key once. A
/// number, a boolean or an object comes with its compact text.
#[derive(Debug)]
pub enum Json {
    Null,
    Text(String),
    Scalar(String),
    Array(Vec<Json>),
    Object(Vec<(String, Json)>, String),
}

/// The value of a JSON text; none where it is not JSON
/// (`serde_json::from_str`).
pub uninterp spec fn json_value(text: Seq<char>) -> Option<Json>;

/// The compact text of a JSON text (`serde_json::from_str`, then
/// `serde_json::to_string`).
pub uninterp spec fn json_compact(text: Seq<char>) -> Option<Seq<char>>;

/// Moves a value of `serde_json` variant by variant; `Value::to_string` gives
/// the compact text. Part of `parse_json`, which states what comes out.
#[verifier::external_body]
fn convert(value: &serde_json::Value) -> (r: Json) {
    match value {
        serde_json::Value::Null => Json::Null,
        serde_json::Value::String(s) => Json::Text(s.clone()),
        serde_json::Value::Array(a) => Json::Array(a.iter().map(convert).collect()),
        serde_json::Value::Object(o) => Json::Object(
            o.iter().map(|(k, v)| (k.clone(), convert(v))).collect(),
            value.to_string(),
        ),
        other => Json::Scalar(other.to_string()),
    }
}

/// `serde_json::from_str` reads a JSON text into a value, or refuses it.
#[verifier::external_body]
pub(crate) fn parse_json(text: &str) -> (r: Option<Json>)
    ensures
        r == json_value(text@),
{
    serde_json::from_str::<serde_json::Value>(text).ok().map(|v| convert(&v))
}

/// `serde_json::from_str` reads a JSON text and `serde_json::to_string` writes
/// it without blanks.
#[verifier::external_body]
pub(crate) fn compact_text(text: &str) -> (r: Option<String>)
    ensures
        opt_view(r) == json_compact(text@),
{
    let value = serde_json::from_str::<serde_json::Value>(text).ok()?;
    serde_json::to_string(&value).ok()
}

} // verus!
