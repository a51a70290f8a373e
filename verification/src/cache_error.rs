//! The cache's error type.
//!
//! [`CacheError`] carries a kind and a backtrace captured at
//! construction. Callers query the kind with the `is_*` methods.

use std::backtrace::Backtrace;
use std::path::PathBuf;
use vstd::prelude::*;
use crate::error::json_error_text;
use crate::hash::{ContentHash, hex_of_bytes};
use crate::json::JsonError;
use crate::sys::{capture_backtrace, io_error_text, path_text};

verus! {

/// The failure modes of cache operations.
#[derive(Debug)]
pub enum CacheErrorKind {
    /// A filesystem operation failed, optionally at a known path.
    Io { source: std::io::Error, path: Option<PathBuf> },
    /// A stored entry is malformed.
    Corruption { context: String },
    /// A stored entry's key does not match the key it was read under.
    HashMismatch { expected: String, actual: String },
    /// A stored entry's JSON could not be read or written.
    Json { source: JsonError },
}

/// Errors raised by cache lookups and stores.
#[derive(Debug)]
pub struct CacheError {
    kind: CacheErrorKind,
    backtrace: Backtrace,
}

impl CacheError {
    /// The kind of this error.
    pub closed spec fn kind(&self) -> CacheErrorKind {
        self.kind
    }

    /// Whether a filesystem operation failed.
    pub fn is_io(&self) -> (r: bool)
        ensures
            r == (self.kind() is Io),
    {
        matches!(self.kind, CacheErrorKind::Io { .. })
    }

    /// Whether a stored entry is malformed.
    pub fn is_corruption(&self) -> (r: bool)
        ensures
            r == (self.kind() is Corruption),
    {
        matches!(self.kind, CacheErrorKind::Corruption { .. })
    }

    /// Whether a stored entry's key does not match.
    pub fn is_hash_mismatch(&self) -> (r: bool)
        ensures
            r == (self.kind() is HashMismatch),
    {
        matches!(self.kind, CacheErrorKind::HashMismatch { .. })
    }

    /// Whether JSON (de)serialization failed.
    pub fn is_json_error(&self) -> (r: bool)
        ensures
            r == (self.kind() is Json),
    {
        matches!(self.kind, CacheErrorKind::Json { .. })
    }

    /// The backtrace this error holds, captured when it was built.
    pub closed spec fn captured_backtrace(&self) -> Backtrace {
        self.backtrace
    }

    /// The backtrace captured when the error was built.
    pub fn backtrace(&self) -> (r: &Backtrace)
        ensures
            *r == self.captured_backtrace(),
    {
        &self.backtrace
    }

    /// The underlying I/O error, when this is an I/O failure.
    pub fn io_source(&self) -> (r: Option<&std::io::Error>)
        ensures
            r is Some <==> self.kind() is Io,
    {
        match &self.kind {
            CacheErrorKind::Io { source, .. } => Some(source),
            _ => None,
        }
    }

    /// The underlying JSON error, when this is a JSON failure.
    pub fn json_source(&self) -> (r: Option<&JsonError>)
        ensures
            r is Some <==> self.kind() is Json,
    {
        match &self.kind {
            CacheErrorKind::Json { source } => Some(source),
            _ => None,
        }
    }

    /// An I/O error, optionally at `path`.
    pub fn io(source: std::io::Error, path: Option<PathBuf>) -> (r: Self)
        ensures
            r.kind() == (CacheErrorKind::Io { source, path }),
    {
        CacheError { kind: CacheErrorKind::Io { source, path }, backtrace: capture_backtrace() }
    }

    /// A corruption error with a description.
    pub fn corruption(context: &str) -> (r: Self)
        ensures
            r.kind() matches CacheErrorKind::Corruption { context: c } && c@ == context@,
    {
        CacheError {
            kind: CacheErrorKind::Corruption { context: context.to_owned() },
            backtrace: capture_backtrace(),
        }
    }

    /// A key mismatch between the expected and the stored digest, both
    /// recorded in hex.
    pub fn hash_mismatch(expected: ContentHash, actual: ContentHash) -> (r: Self)
        ensures
            r.kind() matches CacheErrorKind::HashMismatch { expected: e, actual: a } && e@
                == hex_of_bytes(expected.0@) && a@ == hex_of_bytes(actual.0@),
    {
        CacheError {
            kind: CacheErrorKind::HashMismatch { expected: expected.to_hex(), actual: actual.to_hex() },
            backtrace: capture_backtrace(),
        }
    }

    /// A JSON error.
    pub fn json(source: JsonError) -> (r: Self)
        ensures
            r.kind() == (CacheErrorKind::Json { source }),
    {
        CacheError { kind: CacheErrorKind::Json { source }, backtrace: capture_backtrace() }
    }

    /// Whether `t` is the human-readable message of this error.
    pub open spec fn describes(&self, t: Seq<char>) -> bool {
        &&& (self.kind() matches CacheErrorKind::Corruption { context } ==> t
                == "kiln-cache entry corruption: "@ + context@)
        &&& (self.kind() matches CacheErrorKind::HashMismatch { expected, actual } ==> t
                == "kiln-cache hash mismatch: expected `"@ + expected@ + "`, found `"@ + actual@ + "`"@)
        &&& (self.kind() matches CacheErrorKind::Io { path, .. } ==> (if path is Some {
                t.len() >= "kiln-cache I/O error at `"@.len() && t.subrange(
                    0,
                    "kiln-cache I/O error at `"@.len() as int,
                ) == "kiln-cache I/O error at `"@
            } else {
                t.len() >= "kiln-cache I/O error: "@.len() && t.subrange(
                    0,
                    "kiln-cache I/O error: "@.len() as int,
                ) == "kiln-cache I/O error: "@
            }))
        &&& (self.kind() is Json ==> t.len() >= "kiln-cache JSON error: "@.len() && t.subrange(
                0,
                "kiln-cache JSON error: "@.len() as int,
            ) == "kiln-cache JSON error: "@)
    }

    /// Renders the human-readable message. The texts of I/O and JSON
    /// errors and of paths come from their `Display` impls.
    pub fn to_string(&self) -> (r: String)
        ensures
            self.describes(r@),
    {
        match &self.kind {
            CacheErrorKind::Io { source, path } => match path {
                Some(p) => {
                    let mut s = String::from_str("kiln-cache I/O error at `");
                    let ghost pre = s@;
                    let pt = path_text(p);
                    s.append(pt.as_str());
                    s.append("`: ");
                    let st = io_error_text(source);
                    s.append(st.as_str());
                    assert(s@.subrange(0, pre.len() as int) =~= pre);
                    s
                },
                None => {
                    let mut s = String::from_str("kiln-cache I/O error: ");
                    let ghost pre = s@;
                    let st = io_error_text(source);
                    s.append(st.as_str());
                    assert(s@.subrange(0, pre.len() as int) =~= pre);
                    s
                },
            },
            CacheErrorKind::Corruption { context } => {
                let mut s = String::from_str("kiln-cache entry corruption: ");
                s.append(context.as_str());
                s
            },
            CacheErrorKind::HashMismatch { expected, actual } => {
                let mut s = String::from_str("kiln-cache hash mismatch: expected `");
                s.append(expected.as_str());
                s.append("`, found `");
                s.append(actual.as_str());
                s.append("`");
                s
            },
            CacheErrorKind::Json { source } => {
                let mut s = String::from_str("kiln-cache JSON error: ");
                let ghost pre = s@;
                let st = json_error_text(source);
                s.append(st.as_str());
                assert(s@.subrange(0, pre.len() as int) =~= pre);
                s
            },
        }
    }
}

} // verus!
