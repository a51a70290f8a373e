//! The fetch phase: bringing declared resources into a sandbox before its
//! network is sealed.
//!
//! [`Fetcher`] is implemented by users (an HTTP client, a registry
//! client). [`MockFetcher`] serves pre-registered bodies from memory.
//! Either way, a fetch that names an expected BLAKE3 digest must return
//! a body with that digest; [`check_body`] is that check.

use std::collections::HashMap;
use std::sync::Mutex;
use vstd::prelude::*;
use crate::exec_error::{ExecError, ExecErrorKind};
use crate::hash::{ContentHash, blake3_digest, hex_of_bytes};

verus! {

/// A pluggable resource fetcher, implemented by users. Nothing is assumed
/// of what an implementation returns.
pub trait Fetcher {
    /// Fetches `url`, verifying the body's BLAKE3 digest when
    /// `expected_blake3` is given.
    fn fetch(&self, url: &str, expected_blake3: Option<&ContentHash>) -> Result<Vec<u8>, ExecError>;
}

/// The hash an optional reference points to.
pub open spec fn opt_hash(h: Option<&ContentHash>) -> Option<ContentHash> {
    match h {
        Some(x) => Some(*x),
        None => None,
    }
}

/// The message of a digest mismatch.
pub open spec fn mismatch_message(expected: Seq<u8>, actual: Seq<u8>) -> Seq<char> {
    "BLAKE3 mismatch: expected "@ + hex_of_bytes(expected) + ", got "@ + hex_of_bytes(actual)
}

/// What checking a fetched body against an expected digest gives: the
/// body, unless a digest is expected and the body's differs.
pub open spec fn check_body_result(
    url: Seq<char>,
    body: Seq<u8>,
    expected: Option<ContentHash>,
    r: Result<Vec<u8>, ExecError>,
) -> bool {
    match expected {
        Some(h) if blake3_digest(body) != h.0@ => r matches Err(e) && e.kind() matches ExecErrorKind::FetchFailed {
            url: u,
            context,
        } && u@ == url && context@ == mismatch_message(h.0@, blake3_digest(body)),
        _ => r matches Ok(b) && b@ == body,
    }
}

/// Checks a fetched body against the expected digest, if any.
pub fn check_body(url: &str, body: Vec<u8>, expected: Option<&ContentHash>) -> (r: Result<Vec<u8>, ExecError>)
    ensures
        check_body_result(url@, body@, opt_hash(expected), r),
{
    match expected {
        Some(h) => {
            let actual = ContentHash::from_data(body.as_slice());
            if actual != *h {
                let mut msg = String::from_str("BLAKE3 mismatch: expected ");
                let e = h.to_hex();
                msg.append(e.as_str());
                msg.append(", got ");
                let a = actual.to_hex();
                msg.append(a.as_str());
                Err(ExecError::fetch_failed(url, msg.as_str()))
            } else {
                proof {
                    assert(actual.0@ == h.0@);
                }
                Ok(body)
            }
        },
        None => Ok(body),
    }
}

/// `std::sync::Mutex`, a lock around a value shared between threads.
#[verifier::external_type_specification]
#[verifier::external_body]
#[verifier::reject_recursive_types(T)]
pub struct ExMutex<T: ?Sized>(Mutex<T>);

/// Calls `Mutex::new`. The lock's contents are not modelled: the fetcher
/// changes them through a shared reference.
#[verifier::external_body]
fn new_response_table(table: HashMap<String, Vec<u8>>) -> Mutex<HashMap<String, Vec<u8>>> {
    Mutex::new(table)
}

/// Locks the table and inserts (`HashMap::insert`) `body` under `url`,
/// replacing any earlier body. Panics only when the lock is poisoned,
/// which needs a thread to panic while holding it; no code of the
/// library does.
#[verifier::external_body]
fn table_insert(table: &Mutex<HashMap<String, Vec<u8>>>, url: String, body: Vec<u8>) {
    table.lock().expect("MockFetcher mutex was poisoned").insert(url, body);
}

/// Locks the table and copies the body registered under `url`
/// (`HashMap::get`), or gives the text of the poisoning error. Nothing is
/// stated of the result: it depends on the earlier inserts.
#[verifier::external_body]
fn table_get(table: &Mutex<HashMap<String, Vec<u8>>>, url: &str) -> Result<Option<Vec<u8>>, String> {
    match table.lock() {
        Ok(guard) => Ok(guard.get(url).cloned()),
        Err(err) => Err(format!("{}", err)),
    }
}

/// What a mock fetch gives for what the table held: the poisoning error,
/// a missing-response error, or the checked body.
pub open spec fn mock_fetch_result(
    url: Seq<char>,
    looked_up: Result<Option<Vec<u8>>, String>,
    expected: Option<ContentHash>,
    r: Result<Vec<u8>, ExecError>,
) -> bool {
    match looked_up {
        Err(t) => r matches Err(e) && e.kind() matches ExecErrorKind::FetchFailed { url: u, context }
            && u@ == url && context@ == "mock mutex poisoned: "@ + t@,
        Ok(None) => r matches Err(e) && e.kind() matches ExecErrorKind::FetchFailed { url: u, context }
            && u@ == url && context@ == "no mock response registered"@,
        Ok(Some(body)) => check_body_result(url, body@, expected, r),
    }
}

/// Finishes a mock fetch from what the response table held for `url`.
pub fn finish_mock_fetch(
    url: &str,
    looked_up: Result<Option<Vec<u8>>, String>,
    expected: Option<&ContentHash>,
) -> (r: Result<Vec<u8>, ExecError>)
    ensures
        mock_fetch_result(url@, looked_up, opt_hash(expected), r),
{
    match looked_up {
        Err(t) => {
            let mut msg = String::from_str("mock mutex poisoned: ");
            msg.append(t.as_str());
            Err(ExecError::fetch_failed(url, msg.as_str()))
        },
        Ok(None) => Err(ExecError::fetch_failed(url, "no mock response registered")),
        Ok(Some(body)) => check_body(url, body, expected),
    }
}

/// An in-memory [`Fetcher`] serving pre-registered bodies.
#[derive(Debug)]
pub struct MockFetcher {
    responses: Mutex<HashMap<String, Vec<u8>>>,
}

impl MockFetcher {
    /// An empty fetcher.
    pub fn new() -> Self {
        MockFetcher { responses: new_response_table(HashMap::new()) }
    }

    /// Registers `body` as the response for `url`, replacing any earlier one.
    pub fn insert(&self, url: &str, body: Vec<u8>) {
        table_insert(&self.responses, url.to_owned(), body)
    }
}

impl Default for MockFetcher {
    fn default() -> (r: Self) {
        MockFetcher::new()
    }
}

impl Fetcher for MockFetcher {
    /// Serves the body registered for `url`, checked against the expected
    /// digest; whatever the table held, the outcome is the one
    /// [`mock_fetch_result`] gives for it.
    fn fetch(&self, url: &str, expected_blake3: Option<&ContentHash>) -> (r: Result<Vec<u8>, ExecError>)
        ensures
            exists|looked_up: Result<Option<Vec<u8>>, String>|
                #[trigger] mock_fetch_result(url@, looked_up, opt_hash(expected_blake3), r),
    {
        let looked_up = table_get(&self.responses, url);
        let ghost l = looked_up;
        let r = finish_mock_fetch(url, looked_up, expected_blake3);
        proof {
            assert(mock_fetch_result(url@, l, opt_hash(expected_blake3), r));
        }
        r
    }
}

} // verus!
