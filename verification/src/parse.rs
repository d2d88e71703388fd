//! Reading a message as JSON.
use vstd::prelude::*;
use crate::json::{JsonTree, JsonValue, Member};

verus! {

/// serde_json's `Value`, carried through as it is.
#[verifier::external_type_specification]
#[verifier::external_body]
pub struct ExValue(serde_json::Value);

/// serde_json's `Error`, carried through as it is.
#[verifier::external_type_specification]
#[verifier::external_body]
pub struct ExError(serde_json::Error);

/// The tree that a value of serde_json holds.
pub uninterp spec fn value_tree(value: serde_json::Value) -> JsonTree;

/// The tree that serde_json reads from a text; nothing where it rejects the
/// text.
pub uninterp spec fn json_parsed(text: Seq<char>) -> Option<JsonTree>;

/// Reads `text` as one JSON document.
///
/// Calls `serde_json::from_str` for a `serde_json::Value`. The contract is
/// trusted, and says only that the outcome is a function of the text:
/// [`json_parsed`] is its name.
#[verifier::external_body]
pub(crate) fn from_json_text(text: &str) -> (result: Result<serde_json::Value, serde_json::Error>)
    ensures
        match result {
            Ok(value) => json_parsed(text@) == Some(value_tree(value)),
            Err(_) => json_parsed(text@) is None,
        },
{
    serde_json::from_str(text)
}

/// Copies a value of serde_json into a [`JsonValue`]: variant by variant,
/// the items of an array and the members of an object in the order in which
/// serde_json walks them, a number as the text that serde_json's
/// `Number::to_string` gives for it.
///
/// The contract is trusted: the copy stands for the tree that the value
/// holds, of which [`value_tree`] is the name.
#[verifier::external_body]
pub(crate) fn lift_value(value: &serde_json::Value) -> (tree: JsonValue)
    ensures
        tree@ == value_tree(*value),
{
    match value {
        serde_json::Value::Null => JsonValue::Null,
        serde_json::Value::Bool(b) => JsonValue::Bool(*b),
        serde_json::Value::Number(n) => JsonValue::Number(n.to_string()),
        serde_json::Value::String(s) => JsonValue::String(s.clone()),
        serde_json::Value::Array(a) => JsonValue::Array(a.iter().map(lift_value).collect()),
        serde_json::Value::Object(o) => JsonValue::Object(
            o.iter().map(|(k, v)| Member { key: k.clone(), value: lift_value(v) }).collect(),
        ),
    }
}

/// Reads `text` as one JSON document; gives nothing where it is none.
pub fn parse_json(text: &str) -> (parsed: Option<JsonValue>)
    ensures
        match parsed {
            Some(value) => json_parsed(text@) == Some(value@),
            None => json_parsed(text@) is None,
        },
{
    match from_json_text(text) {
        Ok(value) => Some(lift_value(&value)),
        Err(_) => None,
    }
}

} // verus!
