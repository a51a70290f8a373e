//! The JSON value type of `serde_json`, carried opaquely through metadata
//! maps. The library stores such values and hands them back; it never
//! inspects them.

use vstd::prelude::*;

pub use serde_json::Value as JsonValue;
pub use serde_json::Error as JsonError;

verus! {

/// `serde_json::Value`, an arbitrary JSON document.
#[verifier::external_type_specification]
#[verifier::external_body]
pub struct ExJsonValue(serde_json::Value);

/// `serde_json::Error`, the error of a JSON parse or serialization.
#[verifier::external_type_specification]
#[verifier::external_body]
pub struct ExJsonError(serde_json::Error);

} // verus!
