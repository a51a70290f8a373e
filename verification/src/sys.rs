//! Standard-library types that the library carries but never looks
//! inside: filesystem paths, backtraces and I/O errors.

use vstd::prelude::*;
use std::path::PathBuf;
use std::backtrace::Backtrace;

verus! {

/// `std::path::PathBuf`, an owned filesystem path.
#[verifier::external_type_specification]
#[verifier::external_body]
pub struct ExPathBuf(PathBuf);

/// `std::backtrace::Backtrace`, a captured stack trace.
#[verifier::external_type_specification]
#[verifier::external_body]
pub struct ExBacktrace(Backtrace);

/// `std::io::Error`, the error of an I/O operation.
#[verifier::external_type_specification]
#[verifier::external_body]
pub struct ExIoError(std::io::Error);

/// `<PathBuf as Clone>::clone`, which copies the path. Nothing is stated
/// of the copy: paths are opaque to the library.
pub assume_specification[ <PathBuf as Clone>::clone ](p: &PathBuf) -> PathBuf;

/// Calls `std::backtrace::Backtrace::capture`, which records the stack
/// when the environment asks for backtraces. Nothing is stated of the
/// result: it depends on the environment and the call stack.
#[verifier::external_body]
pub(crate) fn capture_backtrace() -> Backtrace {
    Backtrace::capture()
}

/// Renders an I/O error with its `Display` impl. Nothing is stated of
/// the text.
#[verifier::external_body]
pub(crate) fn io_error_text(e: &std::io::Error) -> String {
    format!("{}", e)
}

/// Renders a path with `Path::display`. Nothing is stated of the text:
/// paths are opaque to the library.
#[verifier::external_body]
pub(crate) fn path_text(p: &PathBuf) -> String {
    format!("{}", p.display())
}

} // verus!
