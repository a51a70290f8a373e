//! Error types.
//!
//! Each layer exposes one situation-specific error struct — [`KilnError`]
//! for planning and validation, [`CacheError`] for the cache and
//! [`ExecError`] for execution — carrying a kind and a backtrace captured
//! at construction. Callers query the kind through the `is_*` methods;
//! contracts speak of it through the `kind` spec functions.

use std::backtrace::Backtrace;
use vstd::prelude::*;
use crate::json::JsonError;
use crate::sys::capture_backtrace;

verus! {

/// Renders a `serde_json::Error` with its `Display` impl. Nothing is
/// stated of the text.
#[verifier::external_body]
pub(crate) fn json_error_text(e: &JsonError) -> String {
    format!("{}", e)
}

/// What kind of cross-target reference named an unknown target.
#[derive(Debug, Clone, Copy, PartialEq, Eq, Structural)]
pub enum ReferenceRelation {
    /// A `requires` edge.
    Requires,
    /// A `conflicts` edge.
    Conflicts,
}

/// The name of a relation as it appears in messages.
pub open spec fn relation_name(r: ReferenceRelation) -> Seq<char> {
    match r {
        ReferenceRelation::Requires => "requires"@,
        ReferenceRelation::Conflicts => "conflicts"@,
    }
}

impl ReferenceRelation {
    /// Renders `requires` or `conflicts`.
    pub fn to_string(&self) -> (r: String)
        ensures
            r@ == relation_name(*self),
    {
        match self {
            ReferenceRelation::Requires => String::from_str("requires"),
            ReferenceRelation::Conflicts => String::from_str("conflicts"),
        }
    }
}

/// The failure modes of planning, validation, building and parsing.
#[derive(Debug)]
pub enum KilnErrorKind {
    /// The dependency graph has a cycle.
    CyclicDependency { message: String },
    /// A target names an id that is not in the pipeline.
    UnknownTargetReference { target: String, referenced_by: String, relation: ReferenceRelation },
    /// An identifier is declared twice.
    DuplicateTarget { target: String },
    /// A builder reached `build` without a required field.
    MissingRequired { field: String },
    /// JSON parsing failed.
    JsonParse { source: JsonError },
}

/// Errors raised when validating, planning, building or parsing a pipeline.
#[derive(Debug)]
pub struct KilnError {
    kind: KilnErrorKind,
    backtrace: Backtrace,
}

impl KilnError {
    /// The kind of this error.
    pub closed spec fn kind(&self) -> KilnErrorKind {
        self.kind
    }

    /// Returns `true` when this error indicates a cyclic dependency between targets.
    pub fn is_cyclic_dependency(&self) -> (r: bool)
        ensures
            r == (self.kind() is CyclicDependency),
    {
        matches!(self.kind, KilnErrorKind::CyclicDependency { .. })
    }

    /// Returns `true` when a target referenced an id that is not in the pipeline.
    pub fn is_unknown_target_reference(&self) -> (r: bool)
        ensures
            r == (self.kind() is UnknownTargetReference),
    {
        matches!(self.kind, KilnErrorKind::UnknownTargetReference { .. })
    }

    /// Returns `true` when an identifier is declared more than once.
    pub fn is_duplicate_target(&self) -> (r: bool)
        ensures
            r == (self.kind() is DuplicateTarget),
    {
        matches!(self.kind, KilnErrorKind::DuplicateTarget { .. })
    }

    /// Returns `true` when a builder reached `build()` without a required field.
    pub fn is_missing_required(&self) -> (r: bool)
        ensures
            r == (self.kind() is MissingRequired),
    {
        matches!(self.kind, KilnErrorKind::MissingRequired { .. })
    }

    /// Returns `true` when JSON parsing failed.
    pub fn is_json_parse_error(&self) -> (r: bool)
        ensures
            r == (self.kind() is JsonParse),
    {
        matches!(self.kind, KilnErrorKind::JsonParse { .. })
    }

    /// The backtrace this error holds, captured when it was built.
    pub closed spec fn captured_backtrace(&self) -> Backtrace {
        self.backtrace
    }

    /// The backtrace captured when the error was built.
    pub fn backtrace(&self) -> (r: &Backtrace)
        ensures
            *r == self.captured_backtrace(),
    {
        &self.backtrace
    }

    /// The underlying JSON error, when this is a parse failure.
    pub fn json_source(&self) -> (r: Option<&JsonError>)
        ensures
            r is Some <==> self.kind() is JsonParse,
    {
        match &self.kind {
            KilnErrorKind::JsonParse { source } => Some(source),
            _ => None,
        }
    }

    /// A cyclic-dependency error with the given message.
    pub fn cyclic_dependency(message: &str) -> (r: Self)
        ensures
            r.kind() matches KilnErrorKind::CyclicDependency { message: m } && m@ == message@,
    {
        KilnError {
            kind: KilnErrorKind::CyclicDependency { message: message.to_owned() },
            backtrace: capture_backtrace(),
        }
    }

    /// An unknown-reference error: `referenced_by` declares `relation` on
    /// the unknown id `target`.
    pub fn unknown_target_reference(
        target: &str,
        referenced_by: &str,
        relation: ReferenceRelation,
    ) -> (r: Self)
        ensures
            r.kind() matches KilnErrorKind::UnknownTargetReference { target: t, referenced_by: b, relation: rel }
                && t@ == target@ && b@ == referenced_by@ && rel == relation,
    {
        KilnError {
            kind: KilnErrorKind::UnknownTargetReference {
                target: target.to_owned(),
                referenced_by: referenced_by.to_owned(),
                relation,
            },
            backtrace: capture_backtrace(),
        }
    }

    /// A duplicate-identifier error.
    pub fn duplicate_target(target: &str) -> (r: Self)
        ensures
            r.kind() matches KilnErrorKind::DuplicateTarget { target: t } && t@ == target@,
    {
        KilnError {
            kind: KilnErrorKind::DuplicateTarget { target: target.to_owned() },
            backtrace: capture_backtrace(),
        }
    }

    /// A missing-field error for a builder.
    pub fn missing_required(field: &str) -> (r: Self)
        ensures
            r.kind() matches KilnErrorKind::MissingRequired { field: f } && f@ == field@,
    {
        KilnError {
            kind: KilnErrorKind::MissingRequired { field: field.to_owned() },
            backtrace: capture_backtrace(),
        }
    }

    /// A JSON parse error wrapping its source.
    pub fn json_parse(source: JsonError) -> (r: Self)
        ensures
            r.kind() == (KilnErrorKind::JsonParse { source }),
    {
        KilnError { kind: KilnErrorKind::JsonParse { source }, backtrace: capture_backtrace() }
    }

    /// Whether `t` is the human-readable message of this error.
    pub open spec fn describes(&self, t: Seq<char>) -> bool {
        &&& (self.kind() matches KilnErrorKind::CyclicDependency { message } ==> t
                == "kiln pipeline has a cyclic dependency: "@ + message@)
        &&& (self.kind() matches KilnErrorKind::UnknownTargetReference {
                target,
                referenced_by,
                relation,
            } ==> t == "target `"@ + referenced_by@ + "` declares a `"@ + relation_name(relation)
                + "` on unknown target `"@ + target@ + "`"@)
        &&& (self.kind() matches KilnErrorKind::DuplicateTarget { target } ==> t == "target id `"@
                + target@ + "` is declared more than once"@)
        &&& (self.kind() matches KilnErrorKind::MissingRequired { field } ==> t
                == "builder is missing the required `"@ + field@ + "` field"@)
        &&& (self.kind() is JsonParse ==> t.len() >= "failed to parse pipeline JSON: "@.len()
                && t.subrange(0, "failed to parse pipeline JSON: "@.len() as int)
                == "failed to parse pipeline JSON: "@)
    }

    /// Renders the human-readable message.
    pub fn to_string(&self) -> (r: String)
        ensures
            self.describes(r@),
    {
        match &self.kind {
            KilnErrorKind::CyclicDependency { message } => {
                let mut s = String::from_str("kiln pipeline has a cyclic dependency: ");
                s.append(message.as_str());
                s
            },
            KilnErrorKind::UnknownTargetReference { target, referenced_by, relation } => {
                let mut s = String::from_str("target `");
                s.append(referenced_by.as_str());
                s.append("` declares a `");
                let rel = relation.to_string();
                s.append(rel.as_str());
                s.append("` on unknown target `");
                s.append(target.as_str());
                s.append("`");
                s
            },
            KilnErrorKind::DuplicateTarget { target } => {
                let mut s = String::from_str("target id `");
                s.append(target.as_str());
                s.append("` is declared more than once");
                s
            },
            KilnErrorKind::MissingRequired { field } => {
                let mut s = String::from_str("builder is missing the required `");
                s.append(field.as_str());
                s.append("` field");
                s
            },
            KilnErrorKind::JsonParse { source } => {
                let mut s = String::from_str("failed to parse pipeline JSON: ");
                let t = json_error_text(source);
                let ghost p = s@;
                s.append(t.as_str());
                assert(s@.subrange(0, p.len() as int) =~= p);
                s
            },
        }
    }
}

} // verus!
