//! Sharded, content-addressed result cache.
//!
//! A cache entry lives under the combined digest of its [`CacheKey`] and
//! holds three blobs: `result.json` (a [`CacheEntry`]), `stdout` and
//! `stderr`. [`ShardedCache`] reads and writes them through a [`Store`].
//! The JSON form of a [`CacheEntry`] is produced and parsed by the
//! application; the cache checks what it parsed against the key it was
//! read under.

use vstd::prelude::*;
use vstd::utf8::*;
use vstd::string::StringSliceAdditionalSpecFns;
use crate::cache_error::{CacheError, CacheErrorKind};
use crate::hash::{CacheKey, ContentHash, combined_digest, hex_digest, hex_error_message, hex_of_bytes, hex_round_trip, blake3_digest, join_lines, strings_view};
use crate::json::JsonError;
use crate::target::Target;

verus! {

/// The blob holding an entry's metadata.
pub const RESULT_FILE: &'static str = "result.json";

/// The blob holding a run's standard output.
pub const STDOUT_FILE: &'static str = "stdout";

/// The blob holding a run's standard error.
pub const STDERR_FILE: &'static str = "stderr";

/// `std::string::FromUtf8Error`, the error of decoding bytes that are not
/// UTF-8.
#[verifier::external_type_specification]
#[verifier::external_body]
pub struct ExFromUtf8Error(std::string::FromUtf8Error);

/// Calls `String::from_utf8`, which succeeds exactly when the bytes are
/// valid UTF-8 and then holds the characters they encode.
#[verifier::external_body]
fn string_from_utf8(bytes: Vec<u8>) -> (r: Result<String, std::string::FromUtf8Error>)
    ensures
        r is Ok <==> valid_utf8(bytes@),
        r matches Ok(s) ==> s@ == decode_utf8(bytes@),
{
    String::from_utf8(bytes)
}

/// Renders a UTF-8 decoding error with its `Display` impl. Nothing is
/// stated of the text.
#[verifier::external_body]
fn utf8_error_text(e: &std::string::FromUtf8Error) -> String {
    format!("{}", e)
}

/// A backend holding the blobs of cache entries. Implemented by the
/// application (on disk) and by tests (in memory); nothing is assumed of
/// what an implementation returns.
pub trait Store {
    /// The blob `name` of the entry for `key`, or `None` when absent.
    fn get(&self, key: &CacheKey, name: &str) -> Result<Option<Vec<u8>>, CacheError>;

    /// Writes the blob `name` of the entry for `key`, replacing it.
    fn put(&self, key: &CacheKey, name: &str, data: &[u8]) -> Result<(), CacheError>;

    /// Whether an entry for `key` exists.
    fn contains(&self, key: &CacheKey) -> bool;

    /// Removes the entry for `key`; `true` when there was one.
    fn evict(&self, key: &CacheKey) -> Result<bool, CacheError>;
}

/// The metadata of a cache entry.
#[derive(Debug, Clone, PartialEq, Eq)]
pub struct CacheEntry {
    /// Hex of the combined digest of the key the entry was stored under.
    pub key: String,
    /// The target that produced the entry.
    pub target_id: String,
    /// The run's exit code.
    pub exit_code: i32,
    /// Seconds since the Unix epoch when the entry was stored.
    pub stored_at: u64,
}

/// A cache hit: the entry's metadata and the captured output.
#[derive(Debug, Clone, PartialEq, Eq)]
pub struct CachedResult {
    /// The entry's metadata.
    pub entry: CacheEntry,
    /// Captured standard output.
    pub stdout: String,
    /// Captured standard error.
    pub stderr: String,
}

/// Whether `k` is the key of target `t` (see [`CacheKey::from_target`]).
pub open spec fn is_target_key(k: CacheKey, t: Target) -> bool {
    &&& k.input_hash.0@ == blake3_digest(encode_utf8(join_lines(strings_view(t.inputs@))))
    &&& k.script_hash.0@ == blake3_digest(encode_utf8(t.run.code@))
    &&& k.tool_hash.0@ == blake3_digest(encode_utf8(t.run.interpreter@))
}

/// What decoding a blob `name` as text gives: the empty string for a
/// missing blob, the text of valid UTF-8, else a corruption error.
pub open spec fn blob_text_result(
    name: Seq<char>,
    blob: Option<Vec<u8>>,
    r: Result<String, CacheError>,
) -> bool {
    match blob {
        None => r matches Ok(s) && s@ == Seq::<char>::empty(),
        Some(b) => if valid_utf8(b@) {
            r matches Ok(s) && s@ == decode_utf8(b@)
        } else {
            r matches Err(e) && e.kind() matches CacheErrorKind::Corruption { context }
                && context@.len() >= ("non-UTF-8 bytes in `"@ + name + "` blob: "@).len()
                && context@.subrange(0, ("non-UTF-8 bytes in `"@ + name + "` blob: "@).len() as int)
                == "non-UTF-8 bytes in `"@ + name + "` blob: "@
        },
    }
}

/// Decodes a blob read from the store as UTF-8 text.
pub fn blob_text(name: &str, blob: Option<Vec<u8>>) -> (r: Result<String, CacheError>)
    ensures
        blob_text_result(name@, blob, r),
{
    match blob {
        None => Ok(String::new()),
        Some(bytes) => match string_from_utf8(bytes) {
            Ok(s) => Ok(s),
            Err(err) => {
                let mut msg = String::from_str("non-UTF-8 bytes in `");
                msg.append(name);
                msg.append("` blob: ");
                let ghost pre = msg@;
                let t = utf8_error_text(&err);
                msg.append(t.as_str());
                assert(msg@.subrange(0, pre.len() as int) =~= pre);
                Err(CacheError::corruption(msg.as_str()))
            },
        },
    }
}

/// What checking a parsed entry against the key it was read under gives:
/// the parse error; the corruption error of an entry key that is not a
/// hex digest; a mismatch error when it is another digest than the key's
/// combined digest; else the entry.
pub open spec fn entry_check_result(
    key: CacheKey,
    parsed: Result<CacheEntry, JsonError>,
    r: Result<CacheEntry, CacheError>,
) -> bool {
    match parsed {
        Err(j) => r matches Err(e) && e.kind() == (CacheErrorKind::Json { source: j }),
        Ok(entry) => match hex_digest(entry.key@) {
            None => r matches Err(e) && e.kind() matches CacheErrorKind::Corruption { context }
                && context@ == hex_error_message(entry.key@),
            Some(d) => if d != combined_digest(key) {
                r matches Err(e) && e.kind() matches CacheErrorKind::HashMismatch { expected, actual }
                    && expected@ == hex_of_bytes(combined_digest(key)) && actual@ == hex_of_bytes(d)
            } else {
                r == Ok::<CacheEntry, CacheError>(entry)
            },
        },
    }
}

/// Whether a parsed entry passes the check against `key`.
pub open spec fn entry_accepted(key: CacheKey, parsed: Result<CacheEntry, JsonError>) -> bool {
    parsed is Ok && hex_digest(parsed->Ok_0.key@) == Some(combined_digest(key))
}

/// `r` is a result the store's `get` may give for blob `name` of `key`.
pub open spec fn store_get<S: Store>(store: &S, key: &CacheKey, name: &str, r: Result<Option<Vec<u8>>, CacheError>) -> bool {
    call_ensures(S::get, (store, key, name), r)
}

/// `r` is a result the store's `put` may give for writing `data` as blob
/// `name` of `key`.
pub open spec fn store_put<S: Store>(store: &S, key: &CacheKey, name: &str, data: &[u8], r: Result<(), CacheError>) -> bool {
    call_ensures(S::put, (store, key, name, data), r)
}

/// Reading blob `name` of `key` as text: the store's `get` gave `got`,
/// and `r` is its error or the decoding of the blob.
pub open spec fn read_string_steps<S: Store>(
    store: &S,
    key: &CacheKey,
    name: &str,
    got: Result<Option<Vec<u8>>, CacheError>,
    r: Result<String, CacheError>,
) -> bool {
    &&& store_get(store, key, name, got)
    &&& match got {
        Err(e) => r == Err::<String, CacheError>(e),
        Ok(blob) => blob_text_result(name@, blob, r),
    }
}

/// Writing an entry: `put` of `result.json` gave `r1`; when it succeeded,
/// `put` of `stdout` (bytes `out`) gave `r2`; when that succeeded too, `put`
/// of `stderr` (bytes `err`) gave `r`. The first error is the result.
pub open spec fn write_entry_steps<S: Store>(
    store: &S,
    key: &CacheKey,
    result_bytes: &[u8],
    out: &[u8],
    err: &[u8],
    r1: Result<(), CacheError>,
    r2: Result<(), CacheError>,
    r: Result<(), CacheError>,
) -> bool {
    &&& store_put(store, key, RESULT_FILE, result_bytes, r1)
    &&& r1 is Err ==> r == r1
    &&& r1 is Ok ==> {
        &&& store_put(store, key, STDOUT_FILE, out, r2)
        &&& r2 is Err ==> r == r2
        &&& r2 is Ok ==> store_put(store, key, STDERR_FILE, err, r)
    }
}

/// The reads of a lookup whose entry passed the check: reading `stdout`
/// (the store gave `g1`) gave `r1`, and when that succeeded, reading
/// `stderr` (the store gave `g2`) gave `r2`. The result is the first
/// read error, or the entry with both texts.
pub open spec fn lookup_reads<S: Store>(
    store: &S,
    key: &CacheKey,
    entry: CacheEntry,
    g1: Result<Option<Vec<u8>>, CacheError>,
    r1: Result<String, CacheError>,
    g2: Result<Option<Vec<u8>>, CacheError>,
    r2: Result<String, CacheError>,
    r: Result<Option<CachedResult>, CacheError>,
) -> bool {
    &&& read_string_steps(store, key, STDOUT_FILE, g1, r1)
    &&& r1 matches Err(e) ==> r == Err::<Option<CachedResult>, CacheError>(e)
    &&& r1 matches Ok(out) ==> {
        &&& read_string_steps(store, key, STDERR_FILE, g2, r2)
        &&& r2 matches Err(e) ==> r == Err::<Option<CachedResult>, CacheError>(e)
        &&& r2 matches Ok(err) ==> r == Ok::<Option<CachedResult>, CacheError>(
            Some(CachedResult { entry, stdout: out, stderr: err }),
        )
    }
}

/// A content-addressed cache over a [`Store`].
#[derive(Debug, Clone)]
pub struct ShardedCache<S> {
    store: S,
}

impl<S: Store> ShardedCache<S> {
    /// The backend.
    pub closed spec fn store_spec(&self) -> S {
        self.store
    }

    /// Constructs a cache over `store`.
    pub fn new(store: S) -> (r: Self)
        ensures
            r.store_spec() == store,
    {
        ShardedCache { store }
    }

    /// The backend.
    pub fn backend(&self) -> (r: &S)
        ensures
            *r == self.store_spec(),
    {
        &self.store
    }

    /// The cache key of a target.
    pub fn compute_key(&self, target: &Target) -> (r: CacheKey)
        ensures
            is_target_key(r, *target),
    {
        CacheKey::from_target(target)
    }

    /// Reads blob `name` of the entry for `key` as text: empty when absent,
    /// a corruption error when it is not UTF-8, or the store's error.
    pub fn read_string(&self, key: &CacheKey, name: &str) -> (r: Result<String, CacheError>)
        ensures
            exists|got: Result<Option<Vec<u8>>, CacheError>|
                #[trigger] read_string_steps(&self.store_spec(), key, name, got, r),
    {
        let got = self.store.get(key, name);
        let ghost g = got;
        let r = match got {
            Err(e) => Err(e),
            Ok(blob) => blob_text(name, blob),
        };
        proof {
            assert(read_string_steps(&self.store_spec(), key, name, g, r));
        }
        r
    }

    /// The `result.json` blob of the entry for `key`, as the store returns it.
    pub fn result_blob(&self, key: &CacheKey) -> (r: Result<Option<Vec<u8>>, CacheError>)
        ensures
            store_get(&self.store_spec(), key, RESULT_FILE, r),
    {
        self.store.get(key, RESULT_FILE)
    }

    /// Checks an entry parsed from the `result.json` of `key`: its key must
    /// be the hex of `key`'s combined digest.
    pub fn check_entry(key: &CacheKey, parsed: Result<CacheEntry, JsonError>) -> (r: Result<
        CacheEntry,
        CacheError,
    >)
        ensures
            entry_check_result(*key, parsed, r),
    {
        match parsed {
            Err(j) => Err(CacheError::json(j)),
            Ok(entry) => {
                let expected = key.combined();
                let h = ContentHash::from_hex(entry.key.as_str());
                match h {
                    Err(e) => Err(e),
                    Ok(actual) => {
                        if actual != expected {
                            Err(CacheError::hash_mismatch(expected, actual))
                        } else {
                            Ok(entry)
                        }
                    },
                }
            },
        }
    }

    /// Completes a lookup of `key` from the parsed `result.json`: checks
    /// the entry, then reads the captured output.
    pub fn finish_lookup(&self, key: &CacheKey, parsed: Result<CacheEntry, JsonError>) -> (r: Result<
        Option<CachedResult>,
        CacheError,
    >)
        ensures
            r matches Ok(x) ==> (entry_accepted(*key, parsed) && (x matches Some(c) && c.entry
                == parsed->Ok_0)),
            !entry_accepted(*key, parsed) ==> (r matches Err(e) && entry_check_result(*key, parsed, Err(e))),
            entry_accepted(*key, parsed) ==> exists|
                g1: Result<Option<Vec<u8>>, CacheError>,
                r1: Result<String, CacheError>,
                g2: Result<Option<Vec<u8>>, CacheError>,
                r2: Result<String, CacheError>,
            | #[trigger] lookup_reads(&self.store_spec(), key, parsed->Ok_0, g1, r1, g2, r2, r),
    {
        let entry = match Self::check_entry(key, parsed) {
            Err(e) => return Err(e),
            Ok(entry) => entry,
        };
        let out = self.read_string(key, STDOUT_FILE);
        let ghost r1 = out;
        let ghost g1 = choose|got: Result<Option<Vec<u8>>, CacheError>|
            read_string_steps(&self.store_spec(), key, STDOUT_FILE, got, r1);
        let stdout = match out {
            Err(e) => {
                let r = Err(e);
                proof {
                    assert(lookup_reads(&self.store_spec(), key, entry, g1, r1, g1, r1, r));
                }
                return r;
            },
            Ok(s) => s,
        };
        let err = self.read_string(key, STDERR_FILE);
        let ghost r2 = err;
        let ghost g2 = choose|got: Result<Option<Vec<u8>>, CacheError>|
            read_string_steps(&self.store_spec(), key, STDERR_FILE, got, r2);
        let stderr = match err {
            Err(e) => {
                let r = Err(e);
                proof {
                    assert(lookup_reads(&self.store_spec(), key, entry, g1, r1, g2, r2, r));
                }
                return r;
            },
            Ok(s) => s,
        };
        let r = Ok(Some(CachedResult { entry, stdout, stderr }));
        proof {
            assert(lookup_reads(&self.store_spec(), key, entry, g1, r1, g2, r2, r));
        }
        r
    }

    /// The entry stored for a run of `target_id` under `key`.
    pub fn new_entry(key: &CacheKey, target_id: &str, exit_code: i32, stored_at: u64) -> (r: CacheEntry)
        ensures
            r.key@ == hex_of_bytes(combined_digest(*key)),
            r.target_id@ == target_id@,
            r.exit_code == exit_code,
            r.stored_at == stored_at,
    {
        CacheEntry {
            key: key.combined().to_hex(),
            target_id: target_id.to_owned(),
            exit_code,
            stored_at,
        }
    }

    /// Writes the three blobs of an entry: its serialized metadata, then
    /// stdout, then stderr, stopping at the first store error.
    pub fn write_entry(&self, key: &CacheKey, result_bytes: &[u8], stdout: &str, stderr: &str) -> (r: Result<
        (),
        CacheError,
    >)
        ensures
            exists|out: &[u8], err: &[u8], r1: Result<(), CacheError>, r2: Result<(), CacheError>|
                out@ == stdout.spec_bytes() && err@ == stderr.spec_bytes()
                    && #[trigger] write_entry_steps(&self.store_spec(), key, result_bytes, out, err, r1, r2, r),
    {
        let out = stdout.as_bytes();
        let err = stderr.as_bytes();
        let r1 = self.store.put(key, RESULT_FILE, result_bytes);
        let ghost g1 = r1;
        match r1 {
            Err(e) => {
                let r = Err(e);
                proof {
                    assert(write_entry_steps(&self.store_spec(), key, result_bytes, out, err, g1, g1, r));
                }
                return r;
            },
            Ok(()) => {},
        }
        let r2 = self.store.put(key, STDOUT_FILE, out);
        let ghost g2 = r2;
        match r2 {
            Err(e) => {
                let r = Err(e);
                proof {
                    assert(write_entry_steps(&self.store_spec(), key, result_bytes, out, err, g1, g2, r));
                }
                return r;
            },
            Ok(()) => {},
        }
        let r = self.store.put(key, STDERR_FILE, err);
        proof {
            assert(write_entry_steps(&self.store_spec(), key, result_bytes, out, err, g1, g2, r));
        }
        r
    }

    /// Whether an entry for `key` exists, as the store reports it.
    pub fn contains(&self, key: &CacheKey) -> (r: bool)
        ensures
            call_ensures(S::contains, (&self.store_spec(), key), r),
    {
        self.store.contains(key)
    }

    /// Removes the entry for `key`, as the store does it.
    pub fn evict(&self, key: &CacheKey) -> (r: Result<bool, CacheError>)
        ensures
            call_ensures(S::evict, (&self.store_spec(), key), r),
    {
        self.store.evict(key)
    }
}

} // verus!

verus! {

/// Law: an entry the cache writes passes the check it is read back with.
/// When `c` is the combined digest of `key` (what [`CacheKey::combined`]
/// returns) and the entry records `c` in hex (as
/// [`ShardedCache::new_entry`] does), the entry is accepted for `key`.
pub proof fn written_entry_is_accepted(key: CacheKey, c: ContentHash, e: CacheEntry)
    requires
        c.0@ == combined_digest(key),
        e.key@ == hex_of_bytes(c.0@),
    ensures
        entry_accepted(key, Ok(e)),
{
    hex_round_trip(c.0@);
}

} // verus!
