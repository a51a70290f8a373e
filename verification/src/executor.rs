//! The decisions of the execution engine.
//!
//! Running a pipeline alternates outside work (spawning processes,
//! writing files, reading the cache) with decisions. The application
//! drives the loop; the decisions are here: planning for execution,
//! whether a cache hit is reused, how a finished run is judged, what a
//! fetch expects, and how a report counts its results.

use vstd::prelude::*;
use crate::cache::CachedResult;
use crate::cache_error::CacheError;
use crate::error::{KilnError, KilnErrorKind};
use crate::exec_error::{ExecError, ExecErrorKind};
use crate::hash::{ContentHash, hex_digest, hex_error_message};
use crate::planner::{ExecutionPlan, build_execution_plan, dep_edges, plan_view};
use crate::graph::has_cycle;
use crate::target::{FetchSpec, IdMap, Pipeline, TargetId, has_key, lookup};
use crate::text::{dec_digits, usize_to_string};
use crate::validator::{first_duplicate, is_unknown_reference_error, unknown_reference};

verus! {

/// The outcome of running one target.
#[derive(Debug, Clone, PartialEq, Eq)]
pub struct RunResult {
    /// The target that ran.
    pub target_id: TargetId,
    /// The process exit code.
    pub exit_code: i32,
    /// Captured standard output.
    pub stdout: String,
    /// Captured standard error.
    pub stderr: String,
    /// Whether the result was served from the cache.
    pub cache_hit: bool,
}

/// The number of results served from the cache.
pub open spec fn hit_count(s: Seq<(TargetId, RunResult)>) -> nat
    decreases s.len(),
{
    if s.len() == 0 {
        0
    } else {
        hit_count(s.drop_last()) + (if s.last().1.cache_hit {
            1nat
        } else {
            0nat
        })
    }
}

proof fn lemma_hit_count_bound(s: Seq<(TargetId, RunResult)>)
    ensures
        hit_count(s) <= s.len(),
    decreases s.len(),
{
    if s.len() > 0 {
        lemma_hit_count_bound(s.drop_last());
    }
}

/// The aggregated outcome of executing a pipeline: each target's result,
/// keyed by id, and the waves that were run.
#[derive(Debug, Clone)]
pub struct ExecutionReport {
    /// Per-target outcomes keyed by id.
    pub results: IdMap<RunResult>,
    /// The waves that were run, as the plan gave them.
    pub waves: Vec<Vec<TargetId>>,
}

impl ExecutionReport {
    /// The number of targets executed, cache hits included.
    pub fn target_count(&self) -> (r: usize)
        ensures
            r == self.results@.len(),
    {
        self.results.len()
    }

    /// The number of targets served from the cache.
    pub fn cache_hits(&self) -> (r: usize)
        ensures
            r == hit_count(self.results@),
    {
        let s = self.results.as_slice();
        let mut n: usize = 0;
        let mut i: usize = 0;
        while i < s.len()
            invariant
                i <= s@.len(),
                n == hit_count(s@.take(i as int)),
                n <= i,
            decreases s@.len() - i,
        {
            proof {
                assert(s@.take(i + 1).drop_last() =~= s@.take(i as int));
            }
            if s[i].1.cache_hit {
                n = n + 1;
            }
            i = i + 1;
        }
        proof {
            assert(s@.take(s@.len() as int) =~= s@);
        }
        n
    }

    /// The number of targets that actually ran.
    pub fn cache_misses(&self) -> (r: usize)
        ensures
            r == self.results@.len() - hit_count(self.results@),
    {
        proof {
            lemma_hit_count_bound(self.results@);
        }
        self.target_count() - self.cache_hits()
    }
}

/// The result served for a cache hit: only the entry of a successful
/// run is reused, with the cached output.
pub fn cached_run(target_id: &TargetId, hit: Option<CachedResult>) -> (r: Option<RunResult>)
    ensures
        r is Some <==> (hit matches Some(h) && h.entry.exit_code == 0),
        r matches Some(x) ==> x.target_id == *target_id && x.exit_code == 0 && x.stdout
            == hit->Some_0.stdout && x.stderr == hit->Some_0.stderr && x.cache_hit,
{
    match hit {
        Some(h) => if h.entry.exit_code == 0 {
            Some(
                RunResult {
                    target_id: target_id.clone(),
                    exit_code: h.entry.exit_code,
                    stdout: h.stdout,
                    stderr: h.stderr,
                    cache_hit: true,
                },
            )
        } else {
            None
        },
        None => None,
    }
}

/// Judges a finished run: a zero exit code is success, anything else a
/// target failure.
pub fn finish_run(target_id: &TargetId, exit_code: i32, stdout: String, stderr: String) -> (r: Result<
    RunResult,
    ExecError,
>)
    ensures
        r is Ok <==> exit_code == 0,
        r matches Ok(x) ==> x.target_id == *target_id && x.exit_code == exit_code && x.stdout == stdout
            && x.stderr == stderr && !x.cache_hit,
        r matches Err(e) ==> e.kind() matches ExecErrorKind::TargetFailed { target, exit_code: c }
            && target@ == target_id@ && c == exit_code,
{
    if exit_code != 0 {
        return Err(ExecError::target_failed(target_id.as_str(), exit_code));
    }
    Ok(RunResult { target_id: target_id.clone(), exit_code, stdout, stderr, cache_hit: false })
}

/// The message when a target declares fetches and no fetcher is attached.
pub open spec fn no_fetcher_message(id: Seq<char>, count: nat) -> Seq<char> {
    "target `"@ + id + "` declares "@ + dec_digits(count)
        + " fetch(es) but the executor has no Fetcher attached; call Executor::with_fetcher"@
}

/// The error for a target that declares `fetch_count` fetches while no
/// fetcher is attached.
pub fn missing_fetcher_error(target_id: &TargetId, fetch_count: usize) -> (r: ExecError)
    ensures
        r.kind() matches ExecErrorKind::FetchFailed { url, context } && url@ == "<no fetcher>"@
            && context@ == no_fetcher_message(target_id@, fetch_count as nat),
{
    let mut msg = String::from_str("target `");
    msg.append(target_id.as_str());
    msg.append("` declares ");
    let n = usize_to_string(fetch_count);
    msg.append(n.as_str());
    msg.append(" fetch(es) but the executor has no Fetcher attached; call Executor::with_fetcher");
    ExecError::fetch_failed("<no fetcher>", msg.as_str())
}

/// The digest a fetch expects: none, the digest its hex spells, or a
/// fetch failure naming the URL when the hex is malformed.
pub fn fetch_expectation(spec: &FetchSpec) -> (r: Result<Option<ContentHash>, ExecError>)
    ensures
        spec.blake3_hex is None ==> r == Ok::<Option<ContentHash>, ExecError>(None),
        spec.blake3_hex matches Some(h) ==> match hex_digest(h@) {
            Some(d) => r matches Ok(x) && x matches Some(c) && c.0@ == d,
            None => r matches Err(e) && e.kind() matches ExecErrorKind::FetchFailed { url, context } && url@
                == spec.url@ && context@ == "invalid blake3 hex in fetch spec: "@
                + "kiln-cache entry corruption: "@ + hex_error_message(h@),
        },
{
    match &spec.blake3_hex {
        None => Ok(None),
        Some(hex) => match ContentHash::from_hex(hex.as_str()) {
            Ok(h) => Ok(Some(h)),
            Err(err) => {
                let mut msg = String::from_str("invalid blake3 hex in fetch spec: ");
                let t = err.to_string();
                msg.append(t.as_str());
                proof {
                    assert(t@ == "kiln-cache entry corruption: "@ + hex_error_message(hex@));
                    assert(msg@ =~= "invalid blake3 hex in fetch spec: "@ + "kiln-cache entry corruption: "@
                        + hex_error_message(hex@));
                }
                Err(ExecError::fetch_failed(spec.url.as_str(), msg.as_str()))
            },
        },
    }
}

/// Validates a pipeline and plans it, wrapping either failure as a core
/// error.
pub fn plan_for_execution(pipeline: &Pipeline) -> (r: Result<ExecutionPlan, ExecError>)
    requires
        pipeline.targets@.len() < u32::MAX,
        dep_edges(pipeline.targets@).len() < u32::MAX,
    ensures
        r is Ok <==> (unknown_reference(pipeline.targets@) is None && first_duplicate(
            pipeline.resources@,
        ) < 0 && !has_cycle(dep_edges(pipeline.targets@))),
        r matches Ok(p) ==> p@ == plan_view(pipeline.targets@),
        r matches Err(e) ==> (e.kind() matches ExecErrorKind::Core(k) && (unknown_reference(
            pipeline.targets@,
        ) is Some ==> is_unknown_reference_error(k, unknown_reference(pipeline.targets@)->0)) && (
        unknown_reference(pipeline.targets@) is None && first_duplicate(pipeline.resources@) >= 0
            ==> k.kind() is DuplicateTarget) && (unknown_reference(pipeline.targets@) is None
            && first_duplicate(pipeline.resources@) < 0 ==> k.kind() is CyclicDependency)),
{
    match pipeline.validate() {
        Err(e) => return Err(ExecError::from_core(e)),
        Ok(()) => {},
    }
    match build_execution_plan(pipeline) {
        Err(e) => Err(ExecError::from_core(e)),
        Ok(p) => Ok(p),
    }
}

} // verus!

verus! {

/// Waves laid end to end.
pub open spec fn flatten_waves(waves: Seq<Seq<Seq<char>>>) -> Seq<Seq<char>>
    decreases waves.len(),
{
    if waves.len() == 0 {
        seq![]
    } else {
        flatten_waves(waves.drop_last()) + waves.last()
    }
}

/// The progress of executing a plan: the targets in the order they run
/// (wave after wave, each wave in order), how many have run, their
/// results, and whether a failure stopped the run.
#[derive(Debug)]
pub struct ExecutionRun {
    waves: Vec<Vec<TargetId>>,
    order: Vec<TargetId>,
    next: usize,
    stopped: bool,
    results: IdMap<RunResult>,
}

impl ExecutionRun {
    /// The ids of the targets in the order they run.
    pub closed spec fn order(&self) -> Seq<Seq<char>> {
        self.order@.map_values(|id: TargetId| id@)
    }

    /// How many targets have run.
    pub closed spec fn progress(&self) -> nat {
        self.next as nat
    }

    /// Whether a failure stopped the run.
    pub closed spec fn is_stopped(&self) -> bool {
        self.stopped
    }

    /// The results recorded so far.
    pub closed spec fn results(&self) -> Seq<(TargetId, RunResult)> {
        self.results@
    }

    /// The results belong to the targets that have run: there is a result
    /// under an id exactly when a target with that id has run, each one a
    /// success (exit code 0) of the target it is stored under, and one
    /// result per target that ran when none ran twice.
    pub open spec fn results_follow_progress(&self) -> bool {
        &&& self.progress() <= self.order().len()
        &&& forall|k: Seq<char>|
            #![trigger has_key(self.results(), k)]
            has_key(self.results(), k) <==> self.order().take(self.progress() as int).contains(k)
        &&& forall|k: Seq<char>|
            #![trigger lookup(self.results(), k)]
            lookup(self.results(), k) matches Some(x) ==> x.exit_code == 0 && x.target_id@ == k
        &&& self.order().take(self.progress() as int).no_duplicates() ==> self.results().len() == self.progress()
    }

    /// The plan's waves, as ids.
    pub closed spec fn waves(&self) -> Seq<Seq<Seq<char>>> {
        self.waves@.map_values(|w: Vec<TargetId>| w@.map_values(|id: TargetId| id@))
    }

    /// Starts running a plan: nothing has run yet.
    pub fn start(plan: ExecutionPlan) -> (r: Self)
        ensures
            r.waves() == plan@,
            r.order() == flatten_waves(plan@),
            r.progress() == 0,
            !r.is_stopped(),
            r.results().len() == 0,
            r.results_follow_progress(),
    {
        let mut order: Vec<TargetId> = Vec::new();
        let mut k: usize = 0;
        while k < plan.waves.len()
            invariant
                k <= plan.waves@.len(),
                order@.map_values(|id: TargetId| id@) == flatten_waves(plan@.take(k as int)),
            decreases plan.waves@.len() - k,
        {
            let ghost before = order@;
            let w = &plan.waves[k];
            let mut i: usize = 0;
            while i < w.len()
                invariant
                    k < plan.waves@.len(),
                    *w == plan.waves@[k as int],
                    i <= w@.len(),
                    order@.len() == before.len() + i,
                    forall|j: int| 0 <= j < before.len() ==> order@[j] == before[j],
                    forall|j: int| 0 <= j < i ==> #[trigger] order@[before.len() + j] == w@[j],
                decreases w@.len() - i,
            {
                order.push(w[i].clone());
                i = i + 1;
            }
            proof {
                let p = plan@;
                assert(p.take(k + 1).drop_last() =~= p.take(k as int));
                assert(p.take(k + 1).last() == p[k as int]);
                assert(p[k as int] == w@.map_values(|id: TargetId| id@));
                let ov = order@.map_values(|id: TargetId| id@);
                let bv = before.map_values(|id: TargetId| id@);
                assert forall|j: int| 0 <= j < ov.len() implies ov[j] == (bv + p[k as int])[j] by {
                    if j >= before.len() {
                        assert(order@[before.len() + (j - before.len())] == w@[j - before.len()]);
                    }
                }
                assert(ov =~= bv + p[k as int]);
            }
            k = k + 1;
        }
        proof {
            assert(plan@.take(plan.waves@.len() as int) =~= plan@);
        }
        let results: IdMap<RunResult> = IdMap::new();
        let r = ExecutionRun { waves: plan.waves, order, next: 0, stopped: false, results };
        proof {
            assert(r.order().take(0) =~= Seq::<Seq<char>>::empty());
            assert forall|k: Seq<char>| #[trigger] has_key(r.results@, k) <==> r.order().take(0).contains(k) by {
                assert(r.results@.len() == 0);
            }
        }
        r
    }

    /// The target to run next: the next one in order, unless all have run
    /// or a failure stopped the run.
    pub fn next_target(&self) -> (r: Option<TargetId>)
        ensures
            r is Some <==> (!self.is_stopped() && self.progress() < self.order().len()),
            r matches Some(id) ==> id@ == self.order()[self.progress() as int],
    {
        if self.stopped || self.next >= self.order.len() {
            None
        } else {
            Some(self.order[self.next].clone())
        }
    }

    /// Records the result of the target that just ran and moves on.
    pub fn record(&mut self, result: RunResult)
        requires
            !old(self).is_stopped(),
            old(self).progress() < old(self).order().len(),
            result.exit_code == 0,
            result.target_id@ == old(self).order()[old(self).progress() as int],
        ensures
            final(self).progress() == old(self).progress() + 1,
            final(self).order() == old(self).order(),
            final(self).waves() == old(self).waves(),
            !final(self).is_stopped(),
            forall|k: Seq<char>|
                #![trigger lookup(final(self).results(), k)]
                lookup(final(self).results(), k) == (if k == old(self).order()[old(self).progress() as int] {
                    Some(result)
                } else {
                    lookup(old(self).results(), k)
                }),
            old(self).results_follow_progress() ==> final(self).results_follow_progress(),
    {
        let ghost p = self.next as int;
        let ghost o = self.order();
        let ghost before = self.results@;
        let n = self.order.len();
        assert(self.next < n);
        let id = self.order[self.next].clone();
        let ghost rid = id@;
        self.results.insert(id, result);
        proof {
          if old(self).results_follow_progress() {
            assert(rid == o[p]);
            assert(o.take(p + 1) =~= o.take(p).push(o[p]));
            assert forall|k: Seq<char>| #[trigger] has_key(self.results@, k) <==> o.take(p + 1).contains(k) by {
                assert(lookup(self.results@, k) is Some <==> has_key(self.results@, k));
                assert(lookup(before, k) is Some <==> has_key(before, k));
                if k == rid {
                    assert(o.take(p + 1)[p] == k);
                } else {
                    assert(has_key(before, k) <==> o.take(p).contains(k));
                    if o.take(p + 1).contains(k) {
                        let j = choose|j: int| 0 <= j < p + 1 && #[trigger] o.take(p + 1)[j] == k;
                        assert(o.take(p)[j] == k);
                    }
                    if o.take(p).contains(k) {
                        let j = choose|j: int| 0 <= j < p && #[trigger] o.take(p)[j] == k;
                        assert(o.take(p + 1)[j] == k);
                    }
                }
            }
            assert forall|k: Seq<char>| #[trigger] lookup(self.results@, k) is Some implies lookup(self.results@, k)->0.exit_code == 0
                && lookup(self.results@, k)->0.target_id@ == k by {
                if k != rid {
                    assert(lookup(before, k) == lookup(self.results@, k));
                }
            }
            if o.take(p + 1).no_duplicates() {
                assert(o.take(p).no_duplicates()) by {
                    assert forall|i: int, j: int| 0 <= i < o.take(p).len() && 0 <= j < o.take(p).len() && i != j
                        implies o.take(p)[i] != o.take(p)[j] by {
                        assert(o.take(p + 1)[i] == o.take(p)[i] && o.take(p + 1)[j] == o.take(p)[j]);
                    }
                }
                assert(!o.take(p).contains(rid)) by {
                    if o.take(p).contains(rid) {
                        let j = choose|j: int| 0 <= j < p && #[trigger] o.take(p)[j] == rid;
                        assert(o.take(p + 1)[j] == o.take(p + 1)[p]);
                    }
                }
                assert(!has_key(before, rid));
            }
          }
        }
        self.next = self.next + 1;
    }

    /// Stops the run after a failure: nothing further runs.
    pub fn stop(&mut self)
        ensures
            final(self).is_stopped(),
            final(self).progress() == old(self).progress(),
            final(self).order() == old(self).order(),
            final(self).waves() == old(self).waves(),
            final(self).results() == old(self).results(),
            old(self).results_follow_progress() ==> final(self).results_follow_progress(),
    {
        let ghost before = *self;
        self.stopped = true;
        proof {
            assert(self.order() == before.order());
            assert(self.results@ == before.results@);
        }
    }

    /// The report of the run: the recorded results and the plan's waves.
    pub fn finish(self) -> (r: ExecutionReport)
        ensures
            r.results@ == self.results(),
            r.waves@.map_values(|w: Vec<TargetId>| w@.map_values(|id: TargetId| id@)) == self.waves(),
    {
        ExecutionReport { results: self.results, waves: self.waves }
    }
}

} // verus!
