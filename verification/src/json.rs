//! Opaque JSON payloads carried through the protocol.

use vstd::prelude::*;

verus! {

/// A JSON document as `serde_json` holds it. The protocol never looks inside one:
/// user info and presence blobs are carried from sender to subscribers unchanged.
#[verifier::external_type_specification]
#[verifier::external_body]
pub struct ExJsonValue(serde_json::Value);

/// Copies a JSON value with `serde_json::Value::clone`.
///
/// Trusted: the copy is the same JSON document as `value`.
#[verifier::external_body]
pub(crate) fn clone_value(value: &serde_json::Value) -> (copy: serde_json::Value)
    ensures
        copy == *value,
{
    value.clone()
}

/// Copies an optional JSON value.
pub fn clone_optional_value(value: &Option<serde_json::Value>) -> (copy: Option<serde_json::Value>)
    ensures
        copy == *value,
{
    match value {
        Some(v) => Some(clone_value(v)),
        None => None,
    }
}

} // verus!
