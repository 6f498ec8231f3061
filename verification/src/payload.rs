//! The update payload type.
//!
//! An update is an opaque structured document; the router never inspects it,
//! it only moves it from an ingestion source to one or more delivery targets.
//! The document type comes from serde_json and is declared opaque here.

use vstd::prelude::*;

verus! {

/// Declares `serde_json::Value` so that it can stand in signatures and
/// fields. The router treats a payload as an indivisible value.
#[verifier::external_type_specification]
#[verifier::external_body]
pub struct ExValue(serde_json::Value);

/// Relies on `serde_json::Value::clone` (a derived clone of the document
/// tree): the copy equals the value it was cloned from.
#[verifier::external_body]
pub(crate) fn clone_value(v: &serde_json::Value) -> (r: serde_json::Value)
    ensures
        r == *v,
{
    v.clone()
}

} // verus!
