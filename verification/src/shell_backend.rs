//! Locating interpreters.
//!
//! The application asks `which` for an interpreter's path; what its
//! answer means is decided here.

use vstd::prelude::*;
use crate::exec_error::{ExecError, ExecErrorKind};
use crate::text::{str_trim, trimmed};

verus! {

/// Resolves interpreter names to paths.
#[derive(Debug, Clone, Copy, Default)]
pub struct ShellBackend;

impl ShellBackend {
    /// A backend.
    pub fn new() -> Self {
        ShellBackend
    }

    /// Reads the answer of `which name`: the path it printed, without
    /// surrounding whitespace, when it succeeded and printed something;
    /// else an interpreter-not-found error naming `name`.
    pub fn interpret_lookup(name: &str, success: bool, stdout: &str) -> (r: Result<String, ExecError>)
        ensures
            r is Ok <==> (success && trimmed(stdout@).len() > 0),
            r matches Ok(p) ==> p@ == trimmed(stdout@),
            r matches Err(e) ==> (e.kind() matches ExecErrorKind::InterpreterNotFound { name: n } && n@
                == name@),
    {
        if !success {
            return Err(ExecError::interpreter_not_found(name));
        }
        let t = str_trim(stdout);
        if t.is_empty() {
            return Err(ExecError::interpreter_not_found(name));
        }
        Ok(t.to_owned())
    }
}

} // verus!
