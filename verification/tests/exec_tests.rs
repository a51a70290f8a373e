use std::path::PathBuf;

use kiln::cache::{CacheEntry, CachedResult};
use kiln::cli::RunArgs;
use kiln::error::KilnError;
use kiln::exec_error::ExecError;
use kiln::executor::{
    cached_run, fetch_expectation, finish_run, missing_fetcher_error, plan_for_execution,
    ExecutionReport, ExecutionRun, RunResult,
};
use kiln::fetch::{check_body, finish_mock_fetch, Fetcher, MockFetcher};
use kiln::hash::ContentHash;
use kiln::sandbox::{namespace_flags, namespace_probe_allowed, plan_bind_mounts, select_present, MountSource, SandboxConfig};
use kiln::shell_backend::ShellBackend;
use kiln::target::{FetchSpec, IdMap, Pipeline, ShellBlock, Target, TargetId};

// ---- errors ----

#[test]
fn io_query_and_message() {
    let err = ExecError::io(std::io::Error::other("disk full"), "writing workspace");
    assert!(err.is_io());
    assert!(err.to_string().contains("disk full"));
    assert!(err.to_string().contains("writing workspace"));
    assert!(err.io_source().is_some());
}

#[test]
fn interpreter_not_found_query() {
    let err = ExecError::interpreter_not_found("zsh");
    assert!(err.is_interpreter_not_found());
    assert!(!err.is_target_failed());
    assert!(err.to_string().contains("zsh"));
}

#[test]
fn target_failed_query() {
    let err = ExecError::target_failed("build", 42);
    assert!(err.is_target_failed());
    assert!(err.to_string().contains("build"));
    assert!(err.to_string().contains("42"));
}

#[test]
fn target_timeout_query() {
    let err = ExecError::target_timeout("build", 1500);
    assert!(err.is_target_timeout());
    assert!(err.to_string().contains("1500"));
}

#[test]
fn sandbox_setup_query_with_path() {
    let err = ExecError::sandbox_setup("mount failed", Some(PathBuf::from("/tmp/x")));
    assert!(err.is_sandbox_setup());
    assert!(err.to_string().contains("/tmp/x"));
}

#[test]
fn fetch_failed_query() {
    let err = ExecError::fetch_failed("https://example/x", "404");
    assert!(err.is_fetch_failed());
    assert!(err.to_string().contains("https://example/x"));
    assert!(err.to_string().contains("404"));
}

#[test]
fn core_error_round_trip_via_from() {
    let json_err = serde_json::from_str::<serde_json::Value>("nope").unwrap_err();
    let err: KilnError = KilnError::json_parse(json_err);
    let exec_err: ExecError = err.into();
    assert!(exec_err.is_core_error());
    assert!(exec_err.core_source().is_some());
}

#[test]
fn exec_error_messages_are_exact() {
    assert_eq!(
        ExecError::interpreter_not_found("zsh").to_string(),
        "interpreter `zsh` not found on PATH"
    );
    assert_eq!(
        ExecError::target_failed("b", -3).to_string(),
        "target `b` exited with code -3"
    );
    assert_eq!(
        ExecError::target_timeout("b", 0).to_string(),
        "target `b` killed after 0ms (wall-clock timeout)"
    );
    assert_eq!(
        ExecError::sandbox_setup("no", None).to_string(),
        "sandbox setup failed: no"
    );
    assert_eq!(
        ExecError::sandbox_setup("no", Some(PathBuf::from("/w"))).to_string(),
        "sandbox setup failed (no) at `/w`"
    );
    assert_eq!(
        ExecError::fetch_failed("u", "c").to_string(),
        "fetch of `u` failed: c"
    );
    assert_eq!(
        ExecError::io(std::io::Error::other("x"), "ctx").to_string(),
        "kiln-exec I/O error (ctx): x"
    );
    let core = ExecError::from(KilnError::duplicate_target("g"));
    assert_eq!(core.to_string(), "kiln-core error: target id `g` is declared more than once");
    let cache = ExecError::from(kiln::cache_error::CacheError::corruption("bad"));
    assert!(cache.is_cache_error());
    assert!(cache.cache_source().is_some());
    assert_eq!(cache.to_string(), "cache error: kiln-cache entry corruption: bad");
}

// ---- fetching ----

#[test]
fn mock_fetcher_returns_registered_body() {
    let fetcher = MockFetcher::new();
    fetcher.insert("https://example/x", b"hello".to_vec());
    let body = fetcher.fetch("https://example/x", None).unwrap();
    assert_eq!(body, b"hello");
}

#[test]
fn mock_fetcher_unknown_url_is_fetch_failed() {
    let fetcher = MockFetcher::new();
    let err = fetcher.fetch("https://example/missing", None).unwrap_err();
    assert!(err.is_fetch_failed());
    assert!(err.to_string().contains("https://example/missing"));
}

#[test]
fn mock_fetcher_verifies_blake3_match() {
    let fetcher = MockFetcher::new();
    fetcher.insert("https://example/x", b"hello".to_vec());
    let expected = ContentHash::from_data(b"hello");
    let body = fetcher.fetch("https://example/x", Some(&expected)).unwrap();
    assert_eq!(body, b"hello");
}

#[test]
fn mock_fetcher_rejects_blake3_mismatch() {
    let fetcher = MockFetcher::new();
    fetcher.insert("https://example/x", b"hello".to_vec());
    let wrong = ContentHash::from_data(b"goodbye");
    let err = fetcher.fetch("https://example/x", Some(&wrong)).unwrap_err();
    assert!(err.is_fetch_failed());
    assert!(err.to_string().contains("BLAKE3 mismatch"));
}

#[test]
fn mock_fetcher_replaces_existing_body() {
    let fetcher = MockFetcher::new();
    fetcher.insert("https://example/x", b"first".to_vec());
    fetcher.insert("https://example/x", b"second".to_vec());
    let body = fetcher.fetch("https://example/x", None).unwrap();
    assert_eq!(body, b"second");
}

#[test]
fn fetcher_trait_is_object_safe() {
    let _ = std::mem::size_of::<&dyn Fetcher>();
}

#[test]
fn fetch_types_are_send_and_sync() {
    fn assert_send_sync<T: Send + Sync>() {}
    assert_send_sync::<MockFetcher>();
}

#[test]
fn check_body_names_both_digests_on_mismatch() {
    let expected = ContentHash::from_bytes([0u8; 32]);
    let err = check_body("u", b"abc".to_vec(), Some(&expected)).unwrap_err();
    let actual = ContentHash::from_data(b"abc").to_hex();
    assert_eq!(
        err.to_string(),
        format!("fetch of `u` failed: BLAKE3 mismatch: expected {}, got {actual}", "0".repeat(64))
    );
    assert_eq!(check_body("u", b"abc".to_vec(), None).unwrap(), b"abc".to_vec());
}

#[test]
fn finish_mock_fetch_reports_each_outcome() {
    let err = finish_mock_fetch("u", Ok(None), None).unwrap_err();
    assert_eq!(err.to_string(), "fetch of `u` failed: no mock response registered");
    let err = finish_mock_fetch("u", Err("poisoned".to_owned()), None).unwrap_err();
    assert_eq!(err.to_string(), "fetch of `u` failed: mock mutex poisoned: poisoned");
    assert_eq!(finish_mock_fetch("u", Ok(Some(vec![1, 2])), None).unwrap(), vec![1, 2]);
}

// ---- sandbox configuration ----

#[test]
fn config_default_disabled() {
    let config = SandboxConfig::default();
    assert!(!config.enabled);
    assert!(!config.isolate_network);
    assert!(!config.env_clear);
    assert!(config.env_allowlist.is_empty());
    assert!(config.env_vars.is_empty());
    assert!(config.allowed_inputs.is_empty());
    assert!(config.allowed_outputs.is_empty());
}

#[test]
fn config_enabled_seals_network_and_clears_env() {
    let config = SandboxConfig::enabled();
    assert!(config.enabled);
    assert!(config.isolate_network);
    assert!(config.env_clear);
    assert!(config.env_allowlist.iter().any(|k| k == "HOME"));
}

#[test]
fn enabled_config_allows_exactly_the_minimal_environment() {
    let config = SandboxConfig::enabled();
    assert_eq!(config.env_allowlist, vec!["HOME", "USER", "TERM", "LANG"]);
    assert!(!config.isolate_filesystem);
    assert!(config.wall_clock_timeout.is_none());
}

#[test]
fn bind_mounts_follow_presence_and_access() {
    let plan = plan_bind_mounts(&[true, false, true], &[true], &[false, true, true, false], &[true, false, true]);
    assert_eq!(
        plan,
        vec![
            (MountSource::Input(0), true),
            (MountSource::Input(2), true),
            (MountSource::Output(0), false),
            (MountSource::RuntimeDir(1), true),
            (MountSource::RuntimeDir(2), true),
            (MountSource::RuntimeFile(0), true),
            (MountSource::RuntimeFile(2), true),
        ]
    );
    assert_eq!(select_present(&[false, true, true, false]), vec![1, 2]);
    assert!(plan_bind_mounts(&[], &[], &[], &[]).is_empty());
}

#[test]
fn namespace_probe_respects_opt_out_and_kernel_hints() {
    assert!(namespace_probe_allowed(None, None, None));
    assert!(!namespace_probe_allowed(Some("1"), None, None));
    assert!(namespace_probe_allowed(Some("0"), None, None));
    assert!(!namespace_probe_allowed(None, Some("5.15.0-microsoft-standard"), None));
    assert!(!namespace_probe_allowed(None, Some("6.6-WSL2"), None));
    assert!(namespace_probe_allowed(None, Some("6.8.0-generic"), Some("1\n")));
    assert!(!namespace_probe_allowed(None, Some("6.8.0-generic"), Some(" 0\n")));
}

#[test]
fn run_flags_choose_the_sandbox() {
    let args = |no_sandbox, seal_network| RunArgs {
        pipeline: PathBuf::from("p.json"),
        cache: None,
        no_sandbox,
        seal_network,
    };
    let c = args(true, true).sandbox_config();
    assert!(!c.enabled && !c.isolate_network && !c.env_clear);
    let c = args(false, true).sandbox_config();
    assert!(c.enabled && c.isolate_network && c.env_clear);
    let c = args(false, false).sandbox_config();
    assert!(c.enabled && !c.isolate_network && !c.env_clear);
}

#[test]
fn which_answer_is_trimmed_or_rejected() {
    assert_eq!(ShellBackend::interpret_lookup("bash", true, "/bin/bash\n").unwrap(), "/bin/bash");
    let err = ShellBackend::interpret_lookup("nope", false, "").unwrap_err();
    assert!(err.is_interpreter_not_found());
    assert!(err.to_string().contains("nope"));
    assert!(ShellBackend::interpret_lookup("nope", true, "  \n").is_err());
    let _ = ShellBackend::new();
}

// ---- execution decisions ----

fn hit(exit_code: i32) -> CachedResult {
    CachedResult {
        entry: CacheEntry { key: String::new(), target_id: "a".to_owned(), exit_code, stored_at: 1 },
        stdout: "out".to_owned(),
        stderr: "err".to_owned(),
    }
}

#[test]
fn only_successful_cache_hits_are_reused() {
    let id = TargetId::new("a");
    let r = cached_run(&id, Some(hit(0))).unwrap();
    assert!(r.cache_hit);
    assert_eq!(r.stdout, "out");
    assert_eq!(r.stderr, "err");
    assert_eq!(r.target_id, id);
    assert!(cached_run(&id, Some(hit(1))).is_none());
    assert!(cached_run(&id, None).is_none());
}

#[test]
fn finished_runs_are_judged_by_exit_code() {
    let id = TargetId::new("t");
    let ok = finish_run(&id, 0, "o".to_owned(), "e".to_owned()).unwrap();
    assert!(!ok.cache_hit);
    assert_eq!(ok.stdout, "o");
    let err = finish_run(&id, 2, String::new(), String::new()).unwrap_err();
    assert!(err.is_target_failed());
    assert_eq!(err.to_string(), "target `t` exited with code 2");
}

#[test]
fn missing_fetcher_message_counts_fetches() {
    let err = missing_fetcher_error(&TargetId::new("needs_fetch"), 2);
    assert!(err.is_fetch_failed());
    assert!(err.to_string().contains("no Fetcher attached"));
    assert_eq!(
        err.to_string(),
        "fetch of `<no fetcher>` failed: target `needs_fetch` declares 2 fetch(es) but the executor has no Fetcher attached; call Executor::with_fetcher"
    );
}

#[test]
fn fetch_expectation_parses_or_rejects_hex() {
    let spec = FetchSpec::new("u", PathBuf::from("d"));
    assert!(fetch_expectation(&spec).unwrap().is_none());
    let h = ContentHash::from_data(b"x");
    let spec = FetchSpec::new("u", PathBuf::from("d")).with_blake3(&h.to_hex());
    assert_eq!(fetch_expectation(&spec).unwrap(), Some(h));
    let spec = FetchSpec::new("u", PathBuf::from("d")).with_blake3("bad");
    let err = fetch_expectation(&spec).unwrap_err();
    assert_eq!(
        err.to_string(),
        "fetch of `u` failed: invalid blake3 hex in fetch spec: kiln-cache entry corruption: invalid hash length: expected 64 hex chars, got 3"
    );
}

#[test]
fn plan_for_execution_wraps_core_errors() {
    let plan = plan_for_execution(&Pipeline::new()).unwrap();
    assert!(plan.waves.is_empty());
    let mut p = Pipeline::new();
    let mut a = Target::new(ShellBlock::new("bash", "true"));
    a.requires.push(TargetId::new("ghost"));
    p.add(TargetId::new("a"), a);
    let err = plan_for_execution(&p).unwrap_err();
    assert!(err.is_core_error());
}

fn result(id: &str, cache_hit: bool) -> RunResult {
    RunResult {
        target_id: TargetId::new(id),
        exit_code: 0,
        stdout: String::new(),
        stderr: String::new(),
        cache_hit,
    }
}

#[test]
fn report_counts_hits_and_misses() {
    let mut results = IdMap::new();
    results.insert(TargetId::new("a"), result("a", true));
    results.insert(TargetId::new("b"), result("b", false));
    results.insert(TargetId::new("c"), result("c", true));
    let report = ExecutionReport { results, waves: vec![] };
    assert_eq!(report.target_count(), 3);
    assert_eq!(report.cache_hits(), 2);
    assert_eq!(report.cache_misses(), 1);
    assert!(report.results.get(&TargetId::new("b")).is_some());

    let empty = ExecutionReport { results: IdMap::new(), waves: vec![] };
    assert_eq!(empty.target_count(), 0);
    assert_eq!(empty.cache_hits(), 0);
    assert_eq!(empty.cache_misses(), 0);
}

#[test]
fn executor_types_are_send() {
    fn assert_send<T: Send>() {}
    assert_send::<ExecutionReport>();
    assert_send::<RunResult>();
}

// ---- execution order ----

fn ok_result(id: &TargetId) -> RunResult {
    RunResult {
        target_id: id.clone(),
        exit_code: 0,
        stdout: String::new(),
        stderr: String::new(),
        cache_hit: false,
    }
}

#[test]
fn execution_run_follows_the_plan_wave_by_wave() {
    let mut b = Target::new(ShellBlock::new("bash", "true"));
    b.requires.push(TargetId::new("a"));
    let mut p = Pipeline::new();
    p.add(TargetId::new("a"), Target::new(ShellBlock::new("bash", "true")));
    p.add(TargetId::new("b"), b);
    p.add(TargetId::new("c"), Target::new(ShellBlock::new("bash", "true")));
    let plan = plan_for_execution(&p).unwrap();
    let mut run = ExecutionRun::start(plan);
    let mut seen = Vec::new();
    while let Some(id) = run.next_target() {
        run.record(ok_result(&id));
        seen.push(id);
    }
    assert_eq!(seen, vec![TargetId::new("a"), TargetId::new("c"), TargetId::new("b")]);
    let report = run.finish();
    assert_eq!(report.target_count(), 3);
    assert_eq!(report.cache_hits(), 0);
    assert_eq!(report.cache_misses(), 3);
}

#[test]
fn stopped_execution_run_runs_nothing_more() {
    let mut p = Pipeline::new();
    p.add(TargetId::new("a"), Target::new(ShellBlock::new("bash", "true")));
    p.add(TargetId::new("b"), Target::new(ShellBlock::new("bash", "true")));
    let plan = plan_for_execution(&p).unwrap();
    let mut run = ExecutionRun::start(plan);
    let first = run.next_target().unwrap();
    assert_eq!(first, TargetId::new("a"));
    run.record(ok_result(&first));
    run.stop();
    assert!(run.next_target().is_none());
    let report = run.finish();
    assert_eq!(report.target_count(), 1);
}

#[test]
fn namespace_flags_follow_the_isolation_switches() {
    let f = namespace_flags(false, false);
    assert!(f.mount && !f.user && !f.network);
    let f = namespace_flags(true, false);
    assert!(f.mount && f.user && f.network);
    let f = namespace_flags(false, true);
    assert!(f.mount && f.user && !f.network);
}
