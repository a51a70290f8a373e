//! Schema types for the named inputs and outputs of a target.
//!
//! [`KilnType`] names the shape of a value a pipeline passes around. It
//! is metadata for readers and tooling; values themselves flow as
//! strings or paths.

use vstd::prelude::*;

verus! {

/// The value-shape categories kiln pipelines understand.
#[derive(Debug, Clone, Copy, PartialEq, Eq, Hash, Structural)]
pub enum KilnType {
    /// A filesystem path.
    Path,
    /// Free-form text.
    String,
    /// A signed integer.
    Int,
    /// A boolean.
    Bool,
    /// A byte count.
    Size,
    /// A span of time.
    Duration,
}

/// The wire name of a type: its variant name in snake case.
pub open spec fn kiln_type_name(t: KilnType) -> Seq<char> {
    match t {
        KilnType::Path => "path"@,
        KilnType::String => "string"@,
        KilnType::Int => "int"@,
        KilnType::Bool => "bool"@,
        KilnType::Size => "size"@,
        KilnType::Duration => "duration"@,
    }
}

impl KilnType {
    /// The wire name of this type.
    pub fn name(&self) -> (r: &'static str)
        ensures
            r@ == kiln_type_name(*self),
    {
        match self {
            KilnType::Path => "path",
            KilnType::String => "string",
            KilnType::Int => "int",
            KilnType::Bool => "bool",
            KilnType::Size => "size",
            KilnType::Duration => "duration",
        }
    }
}

} // verus!
