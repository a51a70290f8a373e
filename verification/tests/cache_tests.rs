use std::cell::RefCell;
use std::collections::HashMap;
use std::path::PathBuf;

use kiln::cache::{blob_text, CacheEntry, ShardedCache, Store, RESULT_FILE, STDERR_FILE, STDOUT_FILE};
use kiln::cache_error::CacheError;
use kiln::hash::{CacheKey, ContentHash};
use kiln::target::{ShellBlock, Target};

fn target(interpreter: &str, code: &str) -> Target {
    Target::new(ShellBlock::new(interpreter, code))
}

/// Blobs kept in memory, keyed by combined digest and blob name.
#[derive(Debug, Default)]
struct MemoryStore {
    blobs: RefCell<HashMap<(String, String), Vec<u8>>>,
}

impl Store for MemoryStore {
    fn get(&self, key: &CacheKey, name: &str) -> Result<Option<Vec<u8>>, CacheError> {
        Ok(self.blobs.borrow().get(&(key.to_string(), name.to_owned())).cloned())
    }

    fn put(&self, key: &CacheKey, name: &str, data: &[u8]) -> Result<(), CacheError> {
        self.blobs
            .borrow_mut()
            .insert((key.to_string(), name.to_owned()), data.to_vec());
        Ok(())
    }

    fn contains(&self, key: &CacheKey) -> bool {
        let k = key.to_string();
        self.blobs.borrow().keys().any(|(d, _)| *d == k)
    }

    fn evict(&self, key: &CacheKey) -> Result<bool, CacheError> {
        let k = key.to_string();
        let mut blobs = self.blobs.borrow_mut();
        let before = blobs.len();
        blobs.retain(|(d, _), _| *d != k);
        Ok(blobs.len() != before)
    }
}

// ---- content hashes ----

#[test]
fn content_hash_from_data_is_deterministic() {
    let h1 = ContentHash::from_data(b"hello world");
    let h2 = ContentHash::from_data(b"hello world");
    assert_eq!(h1, h2);
}

#[test]
fn content_hash_from_data_distinguishes_inputs() {
    let h1 = ContentHash::from_data(b"hello");
    let h2 = ContentHash::from_data(b"world");
    assert_ne!(h1, h2);
}

#[test]
fn content_hash_hex_round_trip() {
    let original = ContentHash::from_data(b"test data");
    let hex = original.to_hex();
    assert_eq!(hex.len(), 64);
    assert_eq!(ContentHash::from_hex(&hex).unwrap(), original);
}

#[test]
fn content_hash_from_hex_rejects_wrong_length() {
    let err = ContentHash::from_hex("abcd").expect_err("too short");
    assert!(err.is_corruption());
}

#[test]
fn content_hash_from_hex_rejects_non_hex_characters() {
    let bad = "z".repeat(64);
    let err = ContentHash::from_hex(&bad).expect_err("non-hex");
    assert!(err.is_corruption());
}

#[test]
fn content_hash_short_first_eight() {
    let hash = ContentHash::from_data(b"short test");
    let short = hash.short();
    assert_eq!(short.len(), 8);
    assert!(hash.to_hex().starts_with(&short));
}

#[test]
fn content_hash_of_empty_input_is_blake3_of_nothing() {
    let hash = ContentHash::from_data(b"");
    assert_eq!(
        hash.to_hex(),
        "af1349b9f5f9a1a6a0404dea36dcc9499bcb25c9adc112b7cc9a93cae41f3262"
    );
    assert_eq!(hash.short(), "af1349b9");
    assert_eq!(hash.to_string(), hash.to_hex());
}

#[test]
fn content_hash_hex_renders_bytes_in_order() {
    let mut bytes = [0u8; 32];
    bytes[0] = 0x0f;
    bytes[1] = 0xa0;
    bytes[31] = 0xff;
    let hex = ContentHash::from_bytes(bytes).to_hex();
    assert!(hex.starts_with("0fa0"));
    assert!(hex.ends_with("ff"));
    assert_eq!(&hex[4..62], "0".repeat(58));
}

#[test]
fn from_hex_trims_whitespace_and_accepts_upper_case() {
    let hash = ContentHash::from_data(b"x");
    let padded = format!("  \t{}\n", hash.to_hex().to_uppercase());
    assert_eq!(ContentHash::from_hex(&padded).unwrap(), hash);
}

#[test]
fn from_hex_rejects_plus_signs() {
    let err = ContentHash::from_hex(&"+0".repeat(32)).unwrap_err();
    assert!(err.is_corruption());
    assert_eq!(
        err.to_string(),
        format!("kiln-cache entry corruption: invalid hex character at position 0 in `{}`", "+0".repeat(32))
    );
}

#[test]
fn from_hex_error_messages_are_exact() {
    let err = ContentHash::from_hex(" abcd ").unwrap_err();
    assert_eq!(
        err.to_string(),
        "kiln-cache entry corruption: invalid hash length: expected 64 hex chars, got 4"
    );
    let text = format!("{}zz{}", "0".repeat(10), "0".repeat(52));
    let err = ContentHash::from_hex(&text).unwrap_err();
    assert_eq!(
        err.to_string(),
        format!("kiln-cache entry corruption: invalid hex character at position 10 in `{text}`")
    );
}

#[test]
fn from_hex_rejects_characters_split_across_pairs() {
    // A two-byte character across a pair boundary.
    let split = format!("a\u{e9}{}", "a".repeat(61));
    let err = ContentHash::from_hex(&split).unwrap_err();
    assert!(err.is_corruption());
    assert_eq!(
        err.to_string(),
        format!("kiln-cache entry corruption: invalid hex character at position 0 in `{split}`")
    );
    // A three-byte character across a pair boundary.
    let euro = format!("\u{20ac}{}", "0".repeat(61));
    assert!(ContentHash::from_hex(&euro).unwrap_err().is_corruption());
    // A two-byte character filling one pair.
    let whole = format!("\u{e9}{}", "0".repeat(62));
    assert!(ContentHash::from_hex(&whole).unwrap_err().is_corruption());
}

// ---- cache keys ----

#[test]
fn cache_key_combined_is_deterministic() {
    let key = CacheKey::new(
        ContentHash::from_data(b"in"),
        ContentHash::from_data(b"src"),
        ContentHash::from_data(b"tool"),
    );
    let c1 = key.combined();
    let c2 = key.combined();
    assert_eq!(c1, c2);
}

#[test]
fn cache_key_combined_hashes_the_three_digests() {
    let key = CacheKey::new(
        ContentHash::from_data(b"in"),
        ContentHash::from_data(b"src"),
        ContentHash::from_data(b"tool"),
    );
    let mut data = Vec::new();
    data.extend_from_slice(&key.input_hash.0);
    data.extend_from_slice(&key.script_hash.0);
    data.extend_from_slice(&key.tool_hash.0);
    assert_eq!(key.combined(), ContentHash::from_data(&data));
    assert_eq!(key.to_string(), key.combined().to_hex());
}

#[test]
fn cache_key_from_target_changes_when_code_changes() {
    let t1 = target("bash", "make all");
    let t2 = target("bash", "make clean");
    let k1 = CacheKey::from_target(&t1);
    let k2 = CacheKey::from_target(&t2);
    assert_ne!(k1.combined(), k2.combined());
}

#[test]
fn cache_key_from_target_changes_when_interpreter_changes() {
    let t1 = target("bash", "echo hi");
    let t2 = target("zsh", "echo hi");
    let k1 = CacheKey::from_target(&t1);
    let k2 = CacheKey::from_target(&t2);
    assert_ne!(k1.combined(), k2.combined());
}

#[test]
fn cache_key_from_target_changes_when_inputs_change() {
    let mut t1 = target("bash", "make");
    t1.inputs.push("src".to_owned());
    let t2 = target("bash", "make");
    let k1 = CacheKey::from_target(&t1);
    let k2 = CacheKey::from_target(&t2);
    assert_ne!(k1.combined(), k2.combined());
}

#[test]
fn cache_key_from_target_is_stable_across_calls() {
    let t = target("bash", "make all");
    let k1 = CacheKey::from_target(&t);
    let k2 = CacheKey::from_target(&t);
    assert_eq!(k1.combined(), k2.combined());
}

#[test]
fn cache_key_from_target_hashes_inputs_joined_by_newlines() {
    let mut t = target("bash", "make");
    t.inputs.push("a".to_owned());
    t.inputs.push("b".to_owned());
    let key = CacheKey::from_target(&t);
    assert_eq!(key.input_hash, ContentHash::from_data(b"a\nb"));
    assert_eq!(key.script_hash, ContentHash::from_data(b"make"));
    assert_eq!(key.tool_hash, ContentHash::from_data(b"bash"));
}

#[test]
fn hash_types_are_send() {
    fn assert_send<T: Send>() {}
    assert_send::<ContentHash>();
    assert_send::<CacheKey>();
}

// ---- cache errors ----

#[test]
fn io_error_query() {
    let err = CacheError::io(std::io::Error::other("nope"), Some(PathBuf::from("/tmp/x")));
    assert!(err.is_io());
    assert!(!err.is_corruption());
    assert!(err.to_string().contains("/tmp/x"));
}

#[test]
fn corruption_query() {
    let err = CacheError::corruption("bad data");
    assert!(err.is_corruption());
    assert!(err.to_string().contains("bad data"));
}

#[test]
fn hash_mismatch_query_and_message() {
    let expected = ContentHash::from_data(b"one");
    let actual = ContentHash::from_data(b"two");
    let err = CacheError::hash_mismatch(expected, actual);
    assert!(err.is_hash_mismatch());

    let rendered = err.to_string();
    assert!(rendered.contains(&expected.to_hex()));
    assert!(rendered.contains(&actual.to_hex()));
}

#[test]
fn json_error_chains_through_source() {
    let json_err = serde_json::from_str::<i32>("not valid").expect_err("invalid");
    let err = CacheError::json(json_err);
    assert!(err.is_json_error());
    assert!(err.json_source().is_some());
}

#[test]
fn cache_error_messages_are_exact() {
    assert_eq!(
        CacheError::corruption("x").to_string(),
        "kiln-cache entry corruption: x"
    );
    let e = ContentHash::from_bytes([1u8; 32]);
    let a = ContentHash::from_bytes([2u8; 32]);
    assert_eq!(
        CacheError::hash_mismatch(e, a).to_string(),
        format!("kiln-cache hash mismatch: expected `{}`, found `{}`", "01".repeat(32), "02".repeat(32))
    );
    let io = CacheError::io(std::io::Error::other("disk"), None);
    assert_eq!(io.to_string(), "kiln-cache I/O error: disk");
    let io = CacheError::io(std::io::Error::other("disk"), Some(PathBuf::from("/c")));
    assert_eq!(io.to_string(), "kiln-cache I/O error at `/c`: disk");
}

// ---- the cache over a store ----

#[test]
fn blob_text_decodes_utf8_and_treats_missing_as_empty() {
    assert_eq!(blob_text("stdout", None).unwrap(), "");
    assert_eq!(blob_text("stdout", Some(b"hi\n".to_vec())).unwrap(), "hi\n");
    let err = blob_text("stderr", Some(vec![0xff, 0xfe])).unwrap_err();
    assert!(err.is_corruption());
    assert!(err
        .to_string()
        .starts_with("kiln-cache entry corruption: non-UTF-8 bytes in `stderr` blob: "));
}

#[test]
fn new_entry_records_the_combined_key() {
    let key = CacheKey::from_target(&target("bash", "make"));
    let entry = ShardedCache::<MemoryStore>::new_entry(&key, "build", 3, 77);
    assert_eq!(entry.key, key.combined().to_hex());
    assert_eq!(entry.target_id, "build");
    assert_eq!(entry.exit_code, 3);
    assert_eq!(entry.stored_at, 77);
}

#[test]
fn check_entry_accepts_matching_key_and_rejects_others() {
    let key = CacheKey::from_target(&target("bash", "make"));
    let good = ShardedCache::<MemoryStore>::new_entry(&key, "build", 0, 1);
    let checked = ShardedCache::<MemoryStore>::check_entry(&key, Ok(good.clone())).unwrap();
    assert_eq!(checked, good);

    let bogus = CacheEntry {
        key: ContentHash::from_data(b"bogus").to_hex(),
        target_id: "build".to_owned(),
        exit_code: 0,
        stored_at: 1,
    };
    let err = ShardedCache::<MemoryStore>::check_entry(&key, Ok(bogus)).unwrap_err();
    assert!(err.is_hash_mismatch());

    let malformed = CacheEntry { key: "xyz".to_owned(), target_id: String::new(), exit_code: 0, stored_at: 0 };
    let err = ShardedCache::<MemoryStore>::check_entry(&key, Ok(malformed)).unwrap_err();
    assert!(err.is_corruption());

    let json_err = serde_json::from_str::<i32>("nope").unwrap_err();
    let err = ShardedCache::<MemoryStore>::check_entry(&key, Err(json_err)).unwrap_err();
    assert!(err.is_json_error());
}

#[test]
fn write_then_finish_lookup_round_trips() {
    let cache = ShardedCache::new(MemoryStore::default());
    let key = cache.compute_key(&target("bash", "make"));
    assert!(cache.result_blob(&key).unwrap().is_none());
    assert!(!cache.contains(&key));

    let entry = ShardedCache::<MemoryStore>::new_entry(&key, "build", 0, 5);
    cache.write_entry(&key, b"{}", "hello\n", "warn\n").unwrap();
    assert!(cache.contains(&key));
    assert_eq!(cache.result_blob(&key).unwrap().unwrap(), b"{}".to_vec());

    let hit = cache.finish_lookup(&key, Ok(entry.clone())).unwrap().unwrap();
    assert_eq!(hit.entry, entry);
    assert_eq!(hit.stdout, "hello\n");
    assert_eq!(hit.stderr, "warn\n");

    assert_eq!(cache.read_string(&key, STDOUT_FILE).unwrap(), "hello\n");
    assert_eq!(cache.read_string(&key, STDERR_FILE).unwrap(), "warn\n");
    assert_eq!(RESULT_FILE, "result.json");

    assert!(cache.evict(&key).unwrap());
    assert!(!cache.contains(&key));
    assert!(!cache.evict(&key).unwrap());
    assert_eq!(cache.backend().blobs.borrow().len(), 0);
}

#[test]
fn finish_lookup_reads_missing_output_as_empty_and_rejects_non_utf8() {
    let cache = ShardedCache::new(MemoryStore::default());
    let key = cache.compute_key(&target("bash", "make"));
    let entry = ShardedCache::<MemoryStore>::new_entry(&key, "build", 0, 5);

    let hit = cache.finish_lookup(&key, Ok(entry.clone())).unwrap().unwrap();
    assert_eq!(hit.entry, entry);
    assert_eq!(hit.stdout, "");
    assert_eq!(hit.stderr, "");

    cache.backend().put(&key, STDOUT_FILE, &[0xff, 0xfe]).unwrap();
    let err = cache.finish_lookup(&key, Ok(entry)).unwrap_err();
    assert!(err.is_corruption());
    assert!(err.to_string().contains("non-UTF-8 bytes in `stdout` blob: "));
}
