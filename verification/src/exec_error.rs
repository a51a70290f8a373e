//! The execution engine's error type.
//!
//! [`ExecError`] carries a kind and a backtrace captured at construction.
//! Callers query the kind with the `is_*` methods; cache and planning
//! errors are wrapped whole.

use std::backtrace::Backtrace;
use std::path::PathBuf;
use vstd::prelude::*;
use crate::cache_error::CacheError;
use crate::error::KilnError;
use crate::sys::{capture_backtrace, io_error_text, path_text};
use crate::text::{dec_digits, dec_int, i32_to_string, u64_to_string};

verus! {

/// The failure modes of execution.
#[derive(Debug)]
pub enum ExecErrorKind {
    /// A process or filesystem operation failed.
    Io { source: std::io::Error, context: String },
    /// The interpreter could not be found.
    InterpreterNotFound { name: String },
    /// A target exited with a nonzero code.
    TargetFailed { target: String, exit_code: i32 },
    /// A target ran past its wall-clock limit.
    TargetTimeout { target: String, elapsed_ms: u64 },
    /// The sandbox could not be set up, optionally at a known path.
    SandboxSetup { context: String, path: Option<PathBuf> },
    /// A fetch failed.
    FetchFailed { url: String, context: String },
    /// A cache operation failed.
    Cache(CacheError),
    /// Validation or planning failed.
    Core(KilnError),
}

/// Errors raised while executing targets.
#[derive(Debug)]
pub struct ExecError {
    kind: Box<ExecErrorKind>,
    backtrace: Backtrace,
}

impl ExecError {
    /// The kind of this error.
    pub closed spec fn kind(&self) -> ExecErrorKind {
        *self.kind
    }

    /// Whether a process or filesystem operation failed.
    pub fn is_io(&self) -> (r: bool)
        ensures
            r == (self.kind() is Io),
    {
        matches!(*self.kind, ExecErrorKind::Io { .. })
    }

    /// Whether the interpreter could not be found.
    pub fn is_interpreter_not_found(&self) -> (r: bool)
        ensures
            r == (self.kind() is InterpreterNotFound),
    {
        matches!(*self.kind, ExecErrorKind::InterpreterNotFound { .. })
    }

    /// Whether a target exited with a nonzero code.
    pub fn is_target_failed(&self) -> (r: bool)
        ensures
            r == (self.kind() is TargetFailed),
    {
        matches!(*self.kind, ExecErrorKind::TargetFailed { .. })
    }

    /// Whether a target ran past its wall-clock limit.
    pub fn is_target_timeout(&self) -> (r: bool)
        ensures
            r == (self.kind() is TargetTimeout),
    {
        matches!(*self.kind, ExecErrorKind::TargetTimeout { .. })
    }

    /// Whether the sandbox could not be set up.
    pub fn is_sandbox_setup(&self) -> (r: bool)
        ensures
            r == (self.kind() is SandboxSetup),
    {
        matches!(*self.kind, ExecErrorKind::SandboxSetup { .. })
    }

    /// Whether a fetch failed.
    pub fn is_fetch_failed(&self) -> (r: bool)
        ensures
            r == (self.kind() is FetchFailed),
    {
        matches!(*self.kind, ExecErrorKind::FetchFailed { .. })
    }

    /// Whether a cache operation failed.
    pub fn is_cache_error(&self) -> (r: bool)
        ensures
            r == (self.kind() is Cache),
    {
        matches!(*self.kind, ExecErrorKind::Cache(_))
    }

    /// Whether validation or planning failed.
    pub fn is_core_error(&self) -> (r: bool)
        ensures
            r == (self.kind() is Core),
    {
        matches!(*self.kind, ExecErrorKind::Core(_))
    }

    /// The backtrace this error holds, captured when it was built.
    pub closed spec fn captured_backtrace(&self) -> Backtrace {
        self.backtrace
    }

    /// The backtrace captured when the error was built.
    pub fn backtrace(&self) -> (r: &Backtrace)
        ensures
            *r == self.captured_backtrace(),
    {
        &self.backtrace
    }

    /// The underlying I/O error, when this is an I/O failure.
    pub fn io_source(&self) -> (r: Option<&std::io::Error>)
        ensures
            r is Some <==> self.kind() is Io,
    {
        match &*self.kind {
            ExecErrorKind::Io { source, .. } => Some(source),
            _ => None,
        }
    }

    /// The underlying cache error, when this wraps one.
    pub fn cache_source(&self) -> (r: Option<&CacheError>)
        ensures
            r is Some <==> self.kind() is Cache,
    {
        match &*self.kind {
            ExecErrorKind::Cache(e) => Some(e),
            _ => None,
        }
    }

    /// The underlying validation or planning error, when this wraps one.
    pub fn core_source(&self) -> (r: Option<&KilnError>)
        ensures
            r is Some <==> self.kind() is Core,
    {
        match &*self.kind {
            ExecErrorKind::Core(e) => Some(e),
            _ => None,
        }
    }

    fn with_kind(kind: ExecErrorKind) -> (r: Self)
        ensures
            r.kind() == kind,
    {
        ExecError { kind: Box::new(kind), backtrace: capture_backtrace() }
    }

    /// An I/O error with a description of what was being done.
    pub fn io(source: std::io::Error, context: &str) -> (r: Self)
        ensures
            r.kind() matches ExecErrorKind::Io { source: s, context: c } && s == source && c@ == context@,
    {
        Self::with_kind(ExecErrorKind::Io { source, context: context.to_owned() })
    }

    /// The interpreter `name` could not be found.
    pub fn interpreter_not_found(name: &str) -> (r: Self)
        ensures
            r.kind() matches ExecErrorKind::InterpreterNotFound { name: n } && n@ == name@,
    {
        Self::with_kind(ExecErrorKind::InterpreterNotFound { name: name.to_owned() })
    }

    /// Target `target` exited with `exit_code`.
    pub fn target_failed(target: &str, exit_code: i32) -> (r: Self)
        ensures
            r.kind() matches ExecErrorKind::TargetFailed { target: t, exit_code: c } && t@ == target@ && c
                == exit_code,
    {
        Self::with_kind(ExecErrorKind::TargetFailed { target: target.to_owned(), exit_code })
    }

    /// Target `target` was killed after `elapsed_ms` milliseconds.
    pub fn target_timeout(target: &str, elapsed_ms: u64) -> (r: Self)
        ensures
            r.kind() matches ExecErrorKind::TargetTimeout { target: t, elapsed_ms: m } && t@ == target@
                && m == elapsed_ms,
    {
        Self::with_kind(ExecErrorKind::TargetTimeout { target: target.to_owned(), elapsed_ms })
    }

    /// Sandbox setup failed, optionally at `path`.
    pub fn sandbox_setup(context: &str, path: Option<PathBuf>) -> (r: Self)
        ensures
            r.kind() matches ExecErrorKind::SandboxSetup { context: c, path: p } && c@ == context@ && p
                == path,
    {
        Self::with_kind(ExecErrorKind::SandboxSetup { context: context.to_owned(), path })
    }

    /// The fetch of `url` failed.
    pub fn fetch_failed(url: &str, context: &str) -> (r: Self)
        ensures
            r.kind() matches ExecErrorKind::FetchFailed { url: u, context: c } && u@ == url@ && c@
                == context@,
    {
        Self::with_kind(ExecErrorKind::FetchFailed { url: url.to_owned(), context: context.to_owned() })
    }

    /// Wraps a cache error.
    pub fn from_cache(err: CacheError) -> (r: Self)
        ensures
            r.kind() == ExecErrorKind::Cache(err),
    {
        Self::with_kind(ExecErrorKind::Cache(err))
    }

    /// Wraps a validation or planning error.
    pub fn from_core(err: KilnError) -> (r: Self)
        ensures
            r.kind() == ExecErrorKind::Core(err),
    {
        Self::with_kind(ExecErrorKind::Core(err))
    }

    /// Renders the human-readable message. The texts of I/O errors and of
    /// paths come from their `Display` impls.
    pub fn to_string(&self) -> (r: String)
        ensures
            self.kind() matches ExecErrorKind::InterpreterNotFound { name } ==> r@ == "interpreter `"@
                + name@ + "` not found on PATH"@,
            self.kind() matches ExecErrorKind::TargetFailed { target, exit_code } ==> r@ == "target `"@
                + target@ + "` exited with code "@ + dec_int(exit_code as int),
            self.kind() matches ExecErrorKind::TargetTimeout { target, elapsed_ms } ==> r@ == "target `"@
                + target@ + "` killed after "@ + dec_digits(elapsed_ms as nat)
                + "ms (wall-clock timeout)"@,
            self.kind() matches ExecErrorKind::SandboxSetup { context, path } ==> (if path is Some {
                r@.len() >= ("sandbox setup failed ("@ + context@ + ") at `"@).len() && r@.subrange(
                    0,
                    ("sandbox setup failed ("@ + context@ + ") at `"@).len() as int,
                ) == "sandbox setup failed ("@ + context@ + ") at `"@
            } else {
                r@ == "sandbox setup failed: "@ + context@
            }),
            self.kind() matches ExecErrorKind::FetchFailed { url, context } ==> r@ == "fetch of `"@ + url@
                + "` failed: "@ + context@,
            self.kind() matches ExecErrorKind::Io { context, .. } ==> r@.len() >= (
            "kiln-exec I/O error ("@ + context@ + "): "@).len() && r@.subrange(
                0,
                ("kiln-exec I/O error ("@ + context@ + "): "@).len() as int,
            ) == "kiln-exec I/O error ("@ + context@ + "): "@,
            self.kind() matches ExecErrorKind::Cache(e) ==> r@.len() >= "cache error: "@.len() && r@.subrange(
                0,
                "cache error: "@.len() as int,
            ) == "cache error: "@ && e.describes(r@.subrange("cache error: "@.len() as int, r@.len() as int)),
            self.kind() matches ExecErrorKind::Core(e) ==> r@.len() >= "kiln-core error: "@.len() && r@.subrange(
                0,
                "kiln-core error: "@.len() as int,
            ) == "kiln-core error: "@ && e.describes(r@.subrange("kiln-core error: "@.len() as int, r@.len() as int)),
    {
        match &*self.kind {
            ExecErrorKind::Io { source, context } => {
                let mut s = String::from_str("kiln-exec I/O error (");
                s.append(context.as_str());
                s.append("): ");
                let ghost pre = s@;
                let t = io_error_text(source);
                s.append(t.as_str());
                assert(s@.subrange(0, pre.len() as int) =~= pre);
                s
            },
            ExecErrorKind::InterpreterNotFound { name } => {
                let mut s = String::from_str("interpreter `");
                s.append(name.as_str());
                s.append("` not found on PATH");
                s
            },
            ExecErrorKind::TargetFailed { target, exit_code } => {
                let mut s = String::from_str("target `");
                s.append(target.as_str());
                s.append("` exited with code ");
                let c = i32_to_string(*exit_code);
                s.append(c.as_str());
                s
            },
            ExecErrorKind::TargetTimeout { target, elapsed_ms } => {
                let mut s = String::from_str("target `");
                s.append(target.as_str());
                s.append("` killed after ");
                let m = u64_to_string(*elapsed_ms);
                s.append(m.as_str());
                s.append("ms (wall-clock timeout)");
                s
            },
            ExecErrorKind::SandboxSetup { context, path } => match path {
                Some(p) => {
                    let mut s = String::from_str("sandbox setup failed (");
                    s.append(context.as_str());
                    s.append(") at `");
                    let ghost pre = s@;
                    let pt = path_text(p);
                    s.append(pt.as_str());
                    s.append("`");
                    assert(s@.subrange(0, pre.len() as int) =~= pre);
                    s
                },
                None => {
                    let mut s = String::from_str("sandbox setup failed: ");
                    s.append(context.as_str());
                    s
                },
            },
            ExecErrorKind::FetchFailed { url, context } => {
                let mut s = String::from_str("fetch of `");
                s.append(url.as_str());
                s.append("` failed: ");
                s.append(context.as_str());
                s
            },
            ExecErrorKind::Cache(e) => {
                let mut s = String::from_str("cache error: ");
                let ghost pre = s@;
                let t = e.to_string();
                s.append(t.as_str());
                assert(s@.subrange(0, pre.len() as int) =~= pre);
                assert(s@.subrange(pre.len() as int, s@.len() as int) =~= t@);
                s
            },
            ExecErrorKind::Core(e) => {
                let mut s = String::from_str("kiln-core error: ");
                let ghost pre = s@;
                let t = e.to_string();
                s.append(t.as_str());
                assert(s@.subrange(0, pre.len() as int) =~= pre);
                assert(s@.subrange(pre.len() as int, s@.len() as int) =~= t@);
                s
            },
        }
    }
}

impl From<CacheError> for ExecError {
    fn from(value: CacheError) -> (r: Self)
        ensures
            r.kind() == ExecErrorKind::Cache(value),
    {
        ExecError::from_cache(value)
    }
}

impl vstd::std_specs::convert::FromSpecImpl<CacheError> for ExecError {
    open spec fn obeys_from_spec() -> bool {
        false
    }

    open spec fn from_spec(v: CacheError) -> Self {
        arbitrary()
    }
}

impl From<KilnError> for ExecError {
    fn from(value: KilnError) -> (r: Self)
        ensures
            r.kind() == ExecErrorKind::Core(value),
    {
        ExecError::from_core(value)
    }
}

impl vstd::std_specs::convert::FromSpecImpl<KilnError> for ExecError {
    open spec fn obeys_from_spec() -> bool {
        false
    }

    open spec fn from_spec(v: KilnError) -> Self {
        arbitrary()
    }
}

} // verus!
