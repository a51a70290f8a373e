//! The command line of the `kiln` program, as plain data.
//!
//! The application parses arguments into copies of these types and
//! converts them; the choices the commands make from their arguments are
//! here.

use std::path::PathBuf;
use vstd::prelude::*;
use vstd::string::StrSliceExecFns;
use crate::sandbox::{SandboxConfig, is_default_config};
use crate::text::{str_trim, trimmed};

verus! {

/// The parsed command line.
#[derive(Debug)]
pub struct Cli {
    /// The subcommand to run.
    pub command: Command,
}

/// The subcommands.
#[derive(Debug)]
pub enum Command {
    /// Run a pipeline manifest.
    Run(RunArgs),
    /// Validate a pipeline manifest without running it.
    Validate(ValidateArgs),
    /// Inspect or maintain a cache directory.
    Cache(CacheCommand),
    /// Show a cache entry by its hex key.
    Inspect(InspectArgs),
}

/// Arguments of `kiln run`.
#[derive(Debug)]
pub struct RunArgs {
    /// The pipeline manifest.
    pub pipeline: PathBuf,
    /// The cache directory, if caching.
    pub cache: Option<PathBuf>,
    /// Run without any sandboxing.
    pub no_sandbox: bool,
    /// Seal the network of each run block.
    pub seal_network: bool,
}

/// Arguments of `kiln validate`.
#[derive(Debug)]
pub struct ValidateArgs {
    /// The pipeline manifest.
    pub pipeline: PathBuf,
}

/// The cache subcommands.
#[derive(Debug)]
pub enum CacheCommand {
    /// Count entries and bytes.
    Stats(CacheStatsArgs),
    /// Remove the cache directory.
    Clear(CacheClearArgs),
}

/// Arguments of `kiln cache stats`.
#[derive(Debug)]
pub struct CacheStatsArgs {
    /// The cache directory.
    pub cache: PathBuf,
}

/// Arguments of `kiln cache clear`.
#[derive(Debug)]
pub struct CacheClearArgs {
    /// The cache directory.
    pub cache: PathBuf,
    /// Confirms the removal.
    pub yes: bool,
}

/// Arguments of `kiln inspect`.
#[derive(Debug)]
pub struct InspectArgs {
    /// The hex key of the entry.
    pub key: String,
    /// The cache directory.
    pub cache: PathBuf,
}

impl RunArgs {
    /// The sandbox a run uses: none with `--no-sandbox`; sealed, with the
    /// environment cleared, with `--seal-network`; else only the mount
    /// namespace.
    pub fn sandbox_config(&self) -> (r: SandboxConfig)
        ensures
            self.no_sandbox ==> is_default_config(r),
            !self.no_sandbox && self.seal_network ==> ({
                &&& r.enabled
                &&& r.isolate_network
                &&& r.env_clear
                &&& r.env_allowlist@.map_values(|s: String| s@) == seq!["HOME"@, "USER"@, "TERM"@, "LANG"@]
                &&& r.allowed_inputs@.len() == 0
                &&& r.allowed_outputs@.len() == 0
                &&& r.wall_clock_timeout is None
                &&& r.env_vars@.len() == 0
                &&& !r.isolate_filesystem
                &&& r.memory_limit is None
                &&& r.cpu_limit_ms is None
                &&& !r.isolate_pid
            }),
            !self.no_sandbox && !self.seal_network ==> ({
                &&& r.enabled
                &&& r.allowed_inputs@.len() == 0
                &&& r.allowed_outputs@.len() == 0
                &&& !r.isolate_network
                &&& r.wall_clock_timeout is None
                &&& !r.env_clear
                &&& r.env_allowlist@.len() == 0
                &&& r.env_vars@.len() == 0
                &&& !r.isolate_filesystem
                &&& r.memory_limit is None
                &&& r.cpu_limit_ms is None
                &&& !r.isolate_pid
            }),
    {
        if self.no_sandbox {
            SandboxConfig::default()
        } else if self.seal_network {
            SandboxConfig::enabled()
        } else {
            let mut c = SandboxConfig::default();
            c.enabled = true;
            c
        }
    }
}

/// The message for an inspect key shorter than 4 characters.
pub open spec fn short_key_message(key: Seq<char>) -> Seq<char> {
    "hex key `"@ + key + "` is too short (must be at least 4 chars)"@
}

/// Splits the key given to `kiln inspect` into its shard and the rest:
/// the entry of key `abcdef…` lives under `ab/cdef…`. Surrounding
/// whitespace is ignored; a key shorter than 4 characters is an error.
pub fn inspect_key_parts(key: &str) -> (r: Result<(String, String), String>)
    ensures
        trimmed(key@).len() < 4 ==> (r matches Err(m) && m@ == short_key_message(trimmed(key@))),
        trimmed(key@).len() >= 4 ==> (r matches Ok((shard, rest)) && shard@ == trimmed(key@).subrange(0, 2)
            && rest@ == trimmed(key@).subrange(2, trimmed(key@).len() as int)),
{
    let t = str_trim(key);
    let n = t.unicode_len();
    if n < 4 {
        let mut msg = String::from_str("hex key `");
        msg.append(t);
        msg.append("` is too short (must be at least 4 chars)");
        return Err(msg);
    }
    let shard = t.substring_char(0, 2).to_owned();
    let rest = t.substring_char(2, n).to_owned();
    Ok((shard, rest))
}

} // verus!
