use vstd::prelude::*;

verus! {

/// The stored payload is an arbitrary structured (JSON) value.  The engine
/// never looks inside one: it is carried through opaquely from insertion to
/// retrieval.
#[verifier::external_type_specification]
#[verifier::external_body]
pub struct ExValue(serde_json::Value);

/// Relies on `serde_json::Value::clone` (a derived `Clone`): it deep-copies
/// the value, yielding a structurally identical one.
#[verifier::external_body]
pub(crate) fn clone_value(v: &serde_json::Value) -> (r: serde_json::Value)
    ensures
        r == *v,
{
    v.clone()
}

} // verus!
