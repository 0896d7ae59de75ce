//! A parsed JSON document, held as plain values.
use vstd::prelude::*;

verus! {

/// A JSON value. Numbers keep their JSON text; objects keep their members in
/// the order in which the parser hands them out.
pub enum JsonValue {
    Null,
    Bool(bool),
    Number(String),
    Str(String),
    Array(Vec<JsonValue>),
    Object(Vec<Member>),
}

/// A property of an object: its key, its value, and the value written out as
/// compact JSON text.
pub struct Member {
    pub key: String,
    pub value: JsonValue,
    pub text: String,
}

/// serde_json's document type, which the JSON5 parser fills; opaque here.
#[verifier::external_type_specification]
#[verifier::external_body]
pub struct ExSerdeValue(serde_json::Value);

/// What parsing JSON5 text gives: the document, or the parser's message.
pub uninterp spec fn json5_doc(text: Seq<char>) -> Result<JsonValue, Seq<char>>;

/// Relies on `json5::from_str` read into a `serde_json::Value`: the document
/// (objects keyed by serde_json's map, in key order) or the error's message.
/// The result depends on the text alone.
#[verifier::external_body]
pub(crate) fn parse_json5(text: &str) -> (r: Result<JsonValue, String>)
    ensures
        match r {
            Ok(v) => json5_doc(text@) == Ok::<JsonValue, Seq<char>>(v),
            Err(m) => json5_doc(text@) == Err::<JsonValue, Seq<char>>(m@),
        },
{
    match json5::from_str::<serde_json::Value>(text) {
        Ok(v) => Ok(value_of(v)),
        Err(e) => Err(e.to_string()),
    }
}

/// Relies on the variants of `serde_json::Value`, each moved into the variant
/// of the same name; numbers and member values are written out by serde_json's
/// `to_string`.
#[verifier::external_body]
fn value_of(v: serde_json::Value) -> JsonValue {
    match v {
        serde_json::Value::Null => JsonValue::Null,
        serde_json::Value::Bool(b) => JsonValue::Bool(b),
        serde_json::Value::Number(n) => JsonValue::Number(n.to_string()),
        serde_json::Value::String(s) => JsonValue::Str(s),
        serde_json::Value::Array(a) => JsonValue::Array(a.into_iter().map(value_of).collect()),
        serde_json::Value::Object(m) => JsonValue::Object(
            m.into_iter().map(|(key, x)| Member { text: x.to_string(), key, value: value_of(x) }).collect(),
        ),
    }
}

} // verus!
