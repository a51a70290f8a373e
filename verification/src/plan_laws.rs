//! What every execution plan satisfies.
//!
//! For a target map whose references are all known and whose dependency
//! graph has no cycle, the plan that [`build_execution_plan`] returns,
//! [`plan_view`], schedules every target exactly once, runs each target
//! after every target it requires, keeps apart targets that declare a
//! conflict and targets that contend for a resource held exclusively, and
//! lists each wave in id order.
//!
//! [`build_execution_plan`]: crate::planner::build_execution_plan

use vstd::prelude::*;
use crate::dag::{
    depth, edges_in_range, level_count, level_group, level_group_upto, level_waves,
    lemma_depth_below_count, lemma_edge_depth, lemma_level_group_members,
};
use crate::executor::{ExecutionRun, flatten_waves};
use crate::graph::has_cycle;
use crate::planner::{dep_edges, dep_edges_upto, ids_of, plan_indices, plan_view, req_edges, lemma_dep_edges_in_range};
use crate::split::{
    compatible, contends, declares_conflict, fits, first_fit, place, split_all, split_all_upto,
    split_upto, split_wave,
};
use crate::target::{Target, TargetId, ids_view, keys_sorted, key_index, has_key, lookup, lemma_key_index, lemma_sorted_key_index};
use crate::text::{str_lt, lemma_str_lt_irreflexive, lemma_str_lt_transitive};
use crate::validator::{all_refs_known, lemma_first_bad_target, lemma_first_unknown};

verus! {

/// `x` occurs in one of the waves.
pub open spec fn occurs(waves: Seq<Seq<usize>>, x: usize) -> bool {
    exists|k: int, j: int| 0 <= k < waves.len() && 0 <= j < waves[k].len() && #[trigger] waves[k][j] == x
}

/// No value occurs twice across the waves.
pub open spec fn no_repeats(waves: Seq<Seq<usize>>) -> bool {
    forall|k1: int, j1: int, k2: int, j2: int|
        0 <= k1 < waves.len() && 0 <= j1 < waves[k1].len() && 0 <= k2 < waves.len() && 0 <= j2
            < waves[k2].len() && #[trigger] waves[k1][j1] == #[trigger] waves[k2][j2] ==> k1 == k2 && j1
            == j2
}

/// The values increase strictly.
pub open spec fn increasing(w: Seq<usize>) -> bool {
    forall|i: int, j: int| 0 <= i < j < w.len() ==> #[trigger] w[i] < #[trigger] w[j]
}

/// What a split of targets `w[0..m]` satisfies: non-empty, increasing
/// sub-waves that hold each placed target exactly once, in which every
/// target is compatible with those placed before it.
pub open spec fn split_shape(s: Seq<(TargetId, Target)>, subs: Seq<Seq<usize>>, w: Seq<usize>, m: nat) -> bool {
    &&& forall|k: int| 0 <= k < subs.len() ==> (#[trigger] subs[k]).len() > 0 && increasing(subs[k])
    &&& forall|x: usize| occurs(subs, x) <==> (exists|i: int| 0 <= i < m && #[trigger] w[i] == x)
    &&& no_repeats(subs)
    &&& forall|k: int, i: int, j: int|
        0 <= k < subs.len() && 0 <= i < j < subs[k].len() ==> compatible(s, #[trigger] subs[k][j] as int, #[trigger] subs[k][i] as int)
}

/// Where `first_fit` points: a sub-wave that `v` fits.
proof fn lemma_first_fit(s: Seq<(TargetId, Target)>, v: int, subs: Seq<Seq<usize>>, m: nat)
    requires
        m <= subs.len(),
    ensures
        -1 <= first_fit(s, v, subs, m) < m,
        first_fit(s, v, subs, m) >= 0 ==> fits(s, v, subs[first_fit(s, v, subs, m)]),
    decreases m,
{
    if m > 0 {
        lemma_first_fit(s, v, subs, (m - 1) as nat);
    }
}

/// Placing a new target larger than all placed ones keeps the shape.
proof fn lemma_place(s: Seq<(TargetId, Target)>, subs: Seq<Seq<usize>>, w: Seq<usize>, m: nat)
    requires
        increasing(w),
        m < w.len(),
        split_shape(s, subs, w, m),
    ensures
        split_shape(s, place(s, subs, w[m as int]), w, m + 1),
{
    let v = w[m as int];
    let r = place(s, subs, v);
    let f = first_fit(s, v as int, subs, subs.len());
    lemma_first_fit(s, v as int, subs, subs.len());
    assert forall|x: usize| occurs(subs, x) implies x < v by {
        let i = choose|i: int| 0 <= i < m && #[trigger] w[i] == x;
        assert(w[i] < w[m as int]);
    }
    assert(!occurs(subs, v)) by {
        if occurs(subs, v) {
            assert(v < v);
        }
    }
    if f >= 0 {
        assert(r == subs.update(f, subs[f].push(v)));
        assert forall|k: int| 0 <= k < r.len() implies (#[trigger] r[k]).len() > 0 && increasing(r[k]) by {
            if k == f {
                assert forall|i: int, j: int| 0 <= i < j < r[k].len() implies #[trigger] r[k][i] < #[trigger] r[k][j] by {
                    if j == r[k].len() - 1 {
                        assert(r[k][i] == subs[f][i]);
                        assert(occurs(subs, subs[f][i]));
                    } else {
                        assert(r[k][i] == subs[f][i] && r[k][j] == subs[f][j]);
                    }
                }
            } else {
                assert(r[k] == subs[k]);
            }
        }
        assert forall|x: usize| occurs(r, x) <==> (exists|i: int| 0 <= i < m + 1 && #[trigger] w[i] == x) by {
            if occurs(r, x) {
                let (k, j) = choose|k: int, j: int| 0 <= k < r.len() && 0 <= j < r[k].len() && #[trigger] r[k][j] == x;
                if k == f && j == r[k].len() - 1 {
                    assert(w[m as int] == x);
                } else {
                    assert(subs[k][j] == x);
                    assert(occurs(subs, x));
                }
            }
            if exists|i: int| 0 <= i < m + 1 && #[trigger] w[i] == x {
                let i = choose|i: int| 0 <= i < m + 1 && #[trigger] w[i] == x;
                if i == m {
                    assert(r[f][r[f].len() - 1] == x);
                } else {
                    assert(occurs(subs, x));
                    let (k, j) = choose|k: int, j: int|
                        0 <= k < subs.len() && 0 <= j < subs[k].len() && #[trigger] subs[k][j] == x;
                    assert(r[k][j] == x);
                }
            }
        }
        assert forall|k1: int, j1: int, k2: int, j2: int|
            0 <= k1 < r.len() && 0 <= j1 < r[k1].len() && 0 <= k2 < r.len() && 0 <= j2 < r[k2].len()
                && #[trigger] r[k1][j1] == #[trigger] r[k2][j2] implies k1 == k2 && j1 == j2 by {
            let new1 = k1 == f && j1 == r[k1].len() - 1;
            let new2 = k2 == f && j2 == r[k2].len() - 1;
            if new1 && !new2 {
                assert(subs[k2][j2] == v);
                assert(occurs(subs, v));
            } else if new2 && !new1 {
                assert(subs[k1][j1] == v);
                assert(occurs(subs, v));
            } else if !new1 && !new2 {
                assert(subs[k1][j1] == r[k1][j1] && subs[k2][j2] == r[k2][j2]);
            }
        }
        assert forall|k: int, i: int, j: int|
            0 <= k < r.len() && 0 <= i < j < r[k].len() implies compatible(
                s,
                #[trigger] r[k][j] as int,
                #[trigger] r[k][i] as int,
            ) by {
            if k == f && j == r[k].len() - 1 {
                assert(r[k][i] == subs[f][i]);
                assert(fits(s, v as int, subs[f]));
                assert(compatible(s, v as int, subs[f][i] as int));
            } else {
                assert(r[k][i] == subs[k][i] && r[k][j] == subs[k][j]);
            }
        }
    } else {
        assert(r == subs.push(seq![v]));
        let last = subs.len() as int;
        assert forall|k: int| 0 <= k < r.len() implies (#[trigger] r[k]).len() > 0 && increasing(r[k]) by {
            if k < last {
                assert(r[k] == subs[k]);
            }
        }
        assert forall|x: usize| occurs(r, x) <==> (exists|i: int| 0 <= i < m + 1 && #[trigger] w[i] == x) by {
            if occurs(r, x) {
                let (k, j) = choose|k: int, j: int| 0 <= k < r.len() && 0 <= j < r[k].len() && #[trigger] r[k][j] == x;
                if k == last {
                    assert(w[m as int] == x);
                } else {
                    assert(subs[k][j] == x);
                    assert(occurs(subs, x));
                }
            }
            if exists|i: int| 0 <= i < m + 1 && #[trigger] w[i] == x {
                let i = choose|i: int| 0 <= i < m + 1 && #[trigger] w[i] == x;
                if i == m {
                    assert(r[last][0] == x);
                } else {
                    assert(occurs(subs, x));
                    let (k, j) = choose|k: int, j: int|
                        0 <= k < subs.len() && 0 <= j < subs[k].len() && #[trigger] subs[k][j] == x;
                    assert(r[k][j] == x);
                }
            }
        }
        assert forall|k1: int, j1: int, k2: int, j2: int|
            0 <= k1 < r.len() && 0 <= j1 < r[k1].len() && 0 <= k2 < r.len() && 0 <= j2 < r[k2].len()
                && #[trigger] r[k1][j1] == #[trigger] r[k2][j2] implies k1 == k2 && j1 == j2 by {
            if k1 == last && k2 != last {
                assert(subs[k2][j2] == v);
                assert(occurs(subs, v));
            } else if k2 == last && k1 != last {
                assert(subs[k1][j1] == v);
                assert(occurs(subs, v));
            } else if k1 != last && k2 != last {
                assert(subs[k1][j1] == r[k1][j1] && subs[k2][j2] == r[k2][j2]);
            }
        }
        assert forall|k: int, i: int, j: int|
            0 <= k < r.len() && 0 <= i < j < r[k].len() implies compatible(
                s,
                #[trigger] r[k][j] as int,
                #[trigger] r[k][i] as int,
            ) by {
            assert(k < last);
            assert(r[k][i] == subs[k][i] && r[k][j] == subs[k][j]);
        }
    }
}

/// The split of an increasing wave has the shape of [`split_shape`].
pub proof fn lemma_split_shape(s: Seq<(TargetId, Target)>, w: Seq<usize>, m: nat)
    requires
        increasing(w),
        m <= w.len(),
    ensures
        split_shape(s, split_upto(s, w, m), w, m),
    decreases m,
{
    if m == 0 {
        let subs = split_upto(s, w, 0);
        assert forall|x: usize| occurs(subs, x) <==> (exists|i: int| 0 <= i < 0 && #[trigger] w[i] == x) by {}
    } else {
        lemma_split_shape(s, w, (m - 1) as nat);
        lemma_place(s, split_upto(s, w, (m - 1) as nat), w, (m - 1) as nat);
    }
}

/// Member `i` of sub-wave `k` is kept out of sub-wave `j` by a member
/// placed there before it that it cannot share a wave with.
pub open spec fn blocked_by(s: Seq<(TargetId, Target)>, subs: Seq<Seq<usize>>, k: int, i: int, j: int) -> bool {
    exists|x: int|
        0 <= x < subs[j].len() && #[trigger] subs[j][x] < subs[k][i] && !compatible(
            s,
            subs[k][i] as int,
            subs[j][x] as int,
        )
}

/// Every member of a sub-wave is kept out of each earlier sub-wave by a
/// member placed there before it that it cannot share a wave with.
pub open spec fn blocked_earlier(s: Seq<(TargetId, Target)>, subs: Seq<Seq<usize>>) -> bool {
    forall|k: int, i: int, j: int|
        0 <= j < k < subs.len() && 0 <= i < subs[k].len() ==> #[trigger] blocked_by(s, subs, k, i, j)
}

/// The sub-waves `first_fit` passes over are ones the target does not fit.
proof fn lemma_first_fit_skips(s: Seq<(TargetId, Target)>, v: int, subs: Seq<Seq<usize>>, m: nat)
    requires
        m <= subs.len(),
    ensures
        first_fit(s, v, subs, m) >= 0 ==> forall|j: int| 0 <= j < first_fit(s, v, subs, m) ==> !fits(s, v, #[trigger] subs[j]),
        first_fit(s, v, subs, m) < 0 ==> forall|j: int| 0 <= j < m ==> !fits(s, v, #[trigger] subs[j]),
    decreases m,
{
    if m > 0 {
        lemma_first_fit_skips(s, v, subs, (m - 1) as nat);
    }
}

/// Placing a target larger than every placed one keeps each member
/// blocked from the earlier sub-waves.
proof fn lemma_place_first_fit(s: Seq<(TargetId, Target)>, subs: Seq<Seq<usize>>, w: Seq<usize>, m: nat)
    requires
        increasing(w),
        m < w.len(),
        split_shape(s, subs, w, m),
        blocked_earlier(s, subs),
    ensures
        blocked_earlier(s, place(s, subs, w[m as int])),
{
    let v = w[m as int];
    let r = place(s, subs, v);
    let f = first_fit(s, v as int, subs, subs.len());
    lemma_first_fit(s, v as int, subs, subs.len());
    lemma_first_fit_skips(s, v as int, subs, subs.len());
    assert forall|x: usize| occurs(subs, x) implies x < v by {
        let i = choose|i: int| 0 <= i < m && #[trigger] w[i] == x;
        assert(w[i] < w[m as int]);
    }
    // A sub-wave that `v` does not fit holds an earlier member it conflicts with.
    assert forall|j: int| 0 <= j < subs.len() && !fits(s, v as int, #[trigger] subs[j]) implies exists|x: int|
        0 <= x < subs[j].len() && subs[j][x] < v && !compatible(s, v as int, subs[j][x] as int) by {
        let x = choose|x: int| 0 <= x < subs[j].len() && !compatible(s, v as int, #[trigger] subs[j][x] as int);
        assert(occurs(subs, subs[j][x]));
    }
    assert forall|k: int, i: int, j: int|
        0 <= j < k < r.len() && 0 <= i < r[k].len() implies #[trigger] blocked_by(s, r, k, i, j) by {
        let is_new = if f >= 0 { k == f && i == r[k].len() - 1 } else { k == subs.len() };
        if is_new {
            assert(r[k][i] == v);
            assert(!fits(s, v as int, subs[j]));
            let x = choose|x: int| 0 <= x < subs[j].len() && subs[j][x] < v && !compatible(s, v as int, subs[j][x] as int);
            assert(r[j][x] == subs[j][x]);
        } else {
            assert(k < subs.len() && i < subs[k].len());
            assert(r[k][i] == subs[k][i]);
            assert(blocked_by(s, subs, k, i, j));
            let x = choose|x: int|
                0 <= x < subs[j].len() && #[trigger] subs[j][x] < subs[k][i] && !compatible(
                    s,
                    subs[k][i] as int,
                    subs[j][x] as int,
                );
            assert(r[j][x] == subs[j][x]);
        }
    }
}

/// Law: splitting a wave is first-fit: every target of a later sub-wave
/// was kept out of each earlier sub-wave of its wave by a target placed
/// there before it with which it declares a conflict (either way) or
/// contends for an exclusively held resource. A target never opens or
/// joins a later sub-wave while an earlier one would have taken it.
pub proof fn split_is_first_fit(s: Seq<(TargetId, Target)>, w: Seq<usize>)
    requires
        increasing(w),
    ensures
        blocked_earlier(s, split_wave(s, w)),
{
    lemma_split_first_fit(s, w, w.len());
}

proof fn lemma_split_first_fit(s: Seq<(TargetId, Target)>, w: Seq<usize>, m: nat)
    requires
        increasing(w),
        m <= w.len(),
    ensures
        blocked_earlier(s, split_upto(s, w, m)),
    decreases m,
{
    if m > 0 {
        lemma_split_first_fit(s, w, (m - 1) as nat);
        lemma_split_shape(s, w, (m - 1) as nat);
        lemma_place_first_fit(s, split_upto(s, w, (m - 1) as nat), w, (m - 1) as nat);
    }
}

/// The number of plan waves that the first `m` levels split into.
pub open spec fn level_start(s: Seq<(TargetId, Target)>, lw: Seq<Seq<usize>>, m: nat) -> nat {
    split_all_upto(s, lw, m).len()
}

/// The level, among the first `m`, that plan wave `k` was split from.
pub open spec fn source_level(s: Seq<(TargetId, Target)>, lw: Seq<Seq<usize>>, m: nat, k: int) -> nat
    decreases m,
{
    if m == 0 {
        0
    } else if k >= level_start(s, lw, (m - 1) as nat) {
        (m - 1) as nat
    } else {
        source_level(s, lw, (m - 1) as nat, k)
    }
}

proof fn lemma_level_start_mono(s: Seq<(TargetId, Target)>, lw: Seq<Seq<usize>>, a: nat, b: nat)
    requires
        a <= b,
    ensures
        level_start(s, lw, a) <= level_start(s, lw, b),
    decreases b - a,
{
    if b > a {
        lemma_level_start_mono(s, lw, a, (b - 1) as nat);
    }
}

/// Each plan wave is a sub-wave of the level it was split from, and the
/// sub-waves of each level sit together, level after level.
proof fn lemma_split_all(s: Seq<(TargetId, Target)>, lw: Seq<Seq<usize>>, m: nat)
    requires
        m <= lw.len(),
    ensures
        forall|k: int|
            0 <= k < split_all_upto(s, lw, m).len() ==> {
                let l = #[trigger] source_level(s, lw, m, k);
                &&& l < m
                &&& level_start(s, lw, l) <= k < level_start(s, lw, l + 1)
                &&& split_all_upto(s, lw, m)[k] == split_wave(s, lw[l as int])[k - level_start(s, lw, l)]
            },
        forall|l: nat, k: int|
            l < m && 0 <= k < split_wave(s, lw[l as int]).len() ==> #[trigger] split_all_upto(s, lw, m)[level_start(
                s,
                lw,
                l,
            ) + k] == #[trigger] split_wave(s, lw[l as int])[k],
    decreases m,
{
    if m > 0 {
        let p = (m - 1) as nat;
        lemma_split_all(s, lw, p);
        let a = split_all_upto(s, lw, p);
        let b = split_wave(s, lw[p as int]);
        assert(split_all_upto(s, lw, m) == a + b);
        assert forall|k: int| 0 <= k < split_all_upto(s, lw, m).len() implies {
            let l = #[trigger] source_level(s, lw, m, k);
            &&& l < m
            &&& level_start(s, lw, l) <= k < level_start(s, lw, l + 1)
            &&& split_all_upto(s, lw, m)[k] == split_wave(s, lw[l as int])[k - level_start(s, lw, l)]
        } by {
            if k < a.len() {
                assert(source_level(s, lw, m, k) == source_level(s, lw, p, k));
                let l = source_level(s, lw, p, k);
                assert(split_all_upto(s, lw, m)[k] == a[k]);
            } else {
                assert(source_level(s, lw, m, k) == p);
            }
        }
        assert forall|l: nat, k: int|
            l < m && 0 <= k < split_wave(s, lw[l as int]).len() implies #[trigger] split_all_upto(
                s,
                lw,
                m,
            )[level_start(s, lw, l) + k] == #[trigger] split_wave(s, lw[l as int])[k] by {
            if l < p {
                lemma_level_start_mono(s, lw, l + 1, p);
                assert(split_all_upto(s, lw, m)[level_start(s, lw, l) + k] == a[level_start(s, lw, l) + k]);
                assert(a[level_start(s, lw, l) + k] == split_wave(s, lw[l as int])[k]);
            }
        }
    }
}

/// The shape of a plan: its waves come from the dependency levels in
/// order, each target once, each wave non-empty and increasing, its
/// members compatible with those placed before them.
pub proof fn lemma_plan_structure(s: Seq<(TargetId, Target)>)
    requires
        s.len() <= usize::MAX,
    ensures
        ({
            let p = plan_indices(s);
            let n = s.len();
            let e = dep_edges(s);
            let lw = level_waves(e, n);
            &&& forall|k: int, j: int|
                0 <= k < p.len() && 0 <= j < p[k].len() ==> #[trigger] p[k][j] < n && depth(e, p[k][j] as int, n)
                    == source_level(s, lw, lw.len(), k)
            &&& forall|v: int| 0 <= v < n ==> #[trigger] occurs(p, v as usize)
            &&& no_repeats(p)
            &&& forall|k: int| 0 <= k < p.len() ==> (#[trigger] p[k]).len() > 0 && increasing(p[k])
            &&& forall|k: int, i: int, j: int|
                0 <= k < p.len() && 0 <= i < j < p[k].len() ==> compatible(s, #[trigger] p[k][j] as int, #[trigger] p[k][i] as int)
            &&& forall|k1: int, k2: int|
                0 <= k1 <= k2 < p.len() ==> #[trigger] source_level(s, lw, lw.len(), k1) <= #[trigger] source_level(
                    s,
                    lw,
                    lw.len(),
                    k2,
                )
        }),
{
    let p = plan_indices(s);
    let n = s.len();
    let e = dep_edges(s);
    let lw = level_waves(e, n);
    let m = lw.len();
    lemma_split_all(s, lw, m);
    assert forall|l: int| 0 <= l < m implies split_shape(s, #[trigger] split_wave(s, lw[l]), lw[l], lw[l].len()) && (forall|i: int| 0 <= i < lw[l].len() ==> #[trigger] lw[l][i] < n && depth(e, lw[l][i] as int, n) == l) by {
        lemma_level_group_members(e, n, l as nat, n);
        assert(lw[l] == level_group(e, n, l as nat));
        assert(increasing(lw[l]));
        lemma_split_shape(s, lw[l], lw[l].len());
    }
    assert forall|k: int, j: int| 0 <= k < p.len() && 0 <= j < p[k].len() implies #[trigger] p[k][j] < n && depth(
        e,
        p[k][j] as int,
        n,
    ) == source_level(s, lw, m, k) by {
        let l = source_level(s, lw, m, k);
        let sw = split_wave(s, lw[l as int]);
        let kk = k - level_start(s, lw, l);
        assert(p[k] == sw[kk]);
        assert(occurs(sw, p[k][j]));
        let i = choose|i: int| 0 <= i < lw[l as int].len() && #[trigger] lw[l as int][i] == p[k][j];
        assert(lw[l as int][i] < n);
    }
    assert forall|v: int| 0 <= v < n implies #[trigger] occurs(p, v as usize) by {
        let l = depth(e, v, n);
        lemma_depth_below_count(e, n, v);
        lemma_level_group_members(e, n, l, n);
        assert(lw[l as int] == level_group(e, n, l));
        assert(lw[l as int].contains(v as usize));
        let i = choose|i: int| 0 <= i < lw[l as int].len() && lw[l as int][i] == v as usize;
        let sw = split_wave(s, lw[l as int]);
        assert(occurs(sw, v as usize));
        let (kk, j) = choose|kk: int, j: int| 0 <= kk < sw.len() && 0 <= j < sw[kk].len() && #[trigger] sw[kk][j] == v as usize;
        assert(p[level_start(s, lw, l) + kk] == sw[kk]);
        lemma_level_start_mono(s, lw, l + 1, m);
        assert(p[level_start(s, lw, l) + kk][j] == v as usize);
    }
    assert forall|k1: int, j1: int, k2: int, j2: int|
        0 <= k1 < p.len() && 0 <= j1 < p[k1].len() && 0 <= k2 < p.len() && 0 <= j2 < p[k2].len()
            && #[trigger] p[k1][j1] == #[trigger] p[k2][j2] implies k1 == k2 && j1 == j2 by {
        let l = source_level(s, lw, m, k1);
        assert(depth(e, p[k1][j1] as int, n) == l);
        assert(source_level(s, lw, m, k2) == l);
        let sw = split_wave(s, lw[l as int]);
        let st = level_start(s, lw, l);
        assert(p[k1] == sw[k1 - st] && p[k2] == sw[k2 - st]);
        assert(sw[k1 - st][j1] == sw[k2 - st][j2]);
    }
    assert forall|k: int| 0 <= k < p.len() implies (#[trigger] p[k]).len() > 0 && increasing(p[k]) by {
        let l = source_level(s, lw, m, k);
        let sw = split_wave(s, lw[l as int]);
        assert(p[k] == sw[k - level_start(s, lw, l)]);
    }
    assert forall|k: int, i: int, j: int|
        0 <= k < p.len() && 0 <= i < j < p[k].len() implies compatible(s, #[trigger] p[k][j] as int, #[trigger] p[k][i] as int) by {
        let l = source_level(s, lw, m, k);
        let sw = split_wave(s, lw[l as int]);
        let kk = k - level_start(s, lw, l);
        assert(p[k] == sw[kk]);
        assert(compatible(s, sw[kk][j] as int, sw[kk][i] as int));
    }
    assert forall|k1: int, k2: int|
        0 <= k1 <= k2 < p.len() implies #[trigger] source_level(s, lw, m, k1) <= #[trigger] source_level(s, lw, m, k2) by {
        let l1 = source_level(s, lw, m, k1);
        let l2 = source_level(s, lw, m, k2);
        if l1 > l2 {
            lemma_level_start_mono(s, lw, l2 + 1, l1);
        }
    }
}

/// A target map the planner accepts: sorted by id (as every target map
/// is), every reference naming one of its targets, and an acyclic
/// dependency graph.
pub open spec fn plannable(s: Seq<(TargetId, Target)>) -> bool {
    &&& keys_sorted(s)
    &&& s.len() <= usize::MAX
    &&& all_refs_known(s)
    &&& !has_cycle(dep_edges(s))
}

/// In a sorted map, different positions hold different ids.
proof fn lemma_ids_distinct(s: Seq<(TargetId, Target)>, i: int, j: int)
    requires
        keys_sorted(s),
        0 <= i < s.len(),
        0 <= j < s.len(),
        i != j,
    ensures
        s[i].0@ != s[j].0@,
{
    if i < j {
        assert(str_lt(s[i].0@, s[j].0@));
        lemma_str_lt_irreflexive(s[i].0@);
    } else {
        assert(str_lt(s[j].0@, s[i].0@));
        lemma_str_lt_irreflexive(s[j].0@);
    }
}

/// The plan as ids is the plan as positions, id by id.
proof fn lemma_plan_view_entries(s: Seq<(TargetId, Target)>)
    ensures
        plan_view(s).len() == plan_indices(s).len(),
        forall|k: int| 0 <= k < plan_view(s).len() ==> (#[trigger] plan_view(s)[k]).len() == plan_indices(s)[k].len(),
        forall|k: int, j: int|
            0 <= k < plan_view(s).len() && 0 <= j < plan_view(s)[k].len() ==> #[trigger] plan_view(s)[k][j]
                == s[plan_indices(s)[k][j] as int].0@,
{
}

/// A wave of the plan that lists the id of target `a` holds `a` itself.
proof fn lemma_wave_position(s: Seq<(TargetId, Target)>, k: int, a: int) -> (j: int)
    requires
        plannable(s),
        0 <= a < s.len(),
        0 <= k < plan_view(s).len(),
        plan_view(s)[k].contains(s[a].0@),
    ensures
        0 <= j < plan_indices(s)[k].len(),
        plan_indices(s)[k][j] == a,
{
    lemma_plan_structure(s);
    lemma_plan_view_entries(s);
    let p = plan_indices(s);
    let j = choose|j: int| 0 <= j < plan_view(s)[k].len() && plan_view(s)[k][j] == s[a].0@;
    assert(plan_view(s)[k][j] == s[p[k][j] as int].0@);
    if p[k][j] as int != a {
        lemma_ids_distinct(s, p[k][j] as int, a);
    }
    j
}

/// The dependency edges include one from each target that target `a`
/// requires to `a`.
proof fn lemma_requires_edge(s: Seq<(TargetId, Target)>, a: int, j: int, m: nat)
    requires
        0 <= a < m <= s.len(),
        0 <= j < s[a].1.requires@.len(),
    ensures
        dep_edges_upto(s, a as nat).len() + j < dep_edges_upto(s, m).len(),
        dep_edges_upto(s, m)[dep_edges_upto(s, a as nat).len() + j] == (
            key_index(s, s[a].1.requires@[j]@),
            a,
        ),
    decreases m,
{
    let p = (m - 1) as nat;
    if a < p {
        lemma_requires_edge(s, a, j, p);
        assert(dep_edges_upto(s, m) == dep_edges_upto(s, p) + req_edges(s, p as int));
    } else {
        assert(dep_edges_upto(s, m) == dep_edges_upto(s, p) + req_edges(s, p as int));
        assert(req_edges(s, a)[j] == (key_index(s, s[a].1.requires@[j]@), a));
    }
}

/// Law: the plan schedules every target of the map exactly once and
/// nothing else. Each target's id occurs in one wave at one place, and
/// every id in the plan is the id of a target.
pub proof fn plan_schedules_each_target_once(s: Seq<(TargetId, Target)>)
    requires
        plannable(s),
    ensures
        forall|i: int|
            0 <= i < s.len() ==> exists|k: int, j: int|
                0 <= k < plan_view(s).len() && 0 <= j < plan_view(s)[k].len() && #[trigger] plan_view(s)[k][j]
                    == (#[trigger] s[i]).0@,
        forall|k: int, j: int|
            0 <= k < plan_view(s).len() && 0 <= j < plan_view(s)[k].len() ==> exists|i: int|
                0 <= i < s.len() && #[trigger] plan_view(s)[k][j] == (#[trigger] s[i]).0@,
        forall|k1: int, j1: int, k2: int, j2: int|
            0 <= k1 < plan_view(s).len() && 0 <= j1 < plan_view(s)[k1].len() && 0 <= k2 < plan_view(s).len()
                && 0 <= j2 < plan_view(s)[k2].len() && #[trigger] plan_view(s)[k1][j1]
                == #[trigger] plan_view(s)[k2][j2] ==> k1 == k2 && j1 == j2,
{
    let p = plan_indices(s);
    let pv = plan_view(s);
    assert forall|i: int| 0 <= i < s.len() implies exists|k: int, j: int|
        0 <= k < pv.len() && 0 <= j < pv[k].len() && #[trigger] pv[k][j] == (#[trigger] s[i]).0@ by {
        lemma_plan_structure(s);
        lemma_plan_view_entries(s);
        assert(occurs(p, i as usize));
        let (k, j) = choose|k: int, j: int| 0 <= k < p.len() && 0 <= j < p[k].len() && #[trigger] p[k][j] == i as usize;
        assert(pv[k][j] == s[i].0@);
    }
    assert forall|k: int, j: int| 0 <= k < pv.len() && 0 <= j < pv[k].len() implies exists|i: int|
        0 <= i < s.len() && #[trigger] pv[k][j] == (#[trigger] s[i]).0@ by {
        lemma_plan_structure(s);
        lemma_plan_view_entries(s);
        let i = p[k][j] as int;
        assert(pv[k][j] == s[i].0@);
    }
    assert forall|k1: int, j1: int, k2: int, j2: int|
        0 <= k1 < pv.len() && 0 <= j1 < pv[k1].len() && 0 <= k2 < pv.len() && 0 <= j2 < pv[k2].len()
            && #[trigger] pv[k1][j1] == #[trigger] pv[k2][j2] implies k1 == k2 && j1 == j2 by {
        lemma_plan_structure(s);
        lemma_plan_view_entries(s);
        let x1 = p[k1][j1] as int;
        let x2 = p[k2][j2] as int;
        if x1 != x2 {
            lemma_ids_distinct(s, x1, x2);
        }
        assert(p[k1][j1] == p[k2][j2]);
    }
}

/// Law: a target runs in a later wave than every target it requires.
/// So a wave never holds a target together with one it requires.
pub proof fn plan_runs_requirements_first(s: Seq<(TargetId, Target)>, a: int, b: int, ka: int, kb: int)
    requires
        plannable(s),
        0 <= a < s.len(),
        0 <= b < s.len(),
        ids_view(s[a].1.requires@).contains(s[b].0@),
        0 <= ka < plan_view(s).len(),
        0 <= kb < plan_view(s).len(),
        plan_view(s)[ka].contains(s[a].0@),
        plan_view(s)[kb].contains(s[b].0@),
    ensures
        kb < ka,
{
    let n = s.len();
    let e = dep_edges(s);
    let lw = level_waves(e, n);
    let p = plan_indices(s);
    lemma_plan_structure(s);
    let ja = lemma_wave_position(s, ka, a);
    let jb = lemma_wave_position(s, kb, b);
    let reqs = s[a].1.requires@;
    let j = choose|j: int| 0 <= j < reqs.len() && #[trigger] ids_view(reqs)[j] == s[b].0@;
    assert(reqs[j]@ == s[b].0@);
    lemma_sorted_key_index(s, b);
    lemma_requires_edge(s, a, j, n);
    let ei = dep_edges_upto(s, a as nat).len() + j;
    assert(e[ei] == (b, a));
    lemma_dep_edges_in_range(s, n);
    lemma_edge_depth(e, n, ei);
    assert(depth(e, a, n) == source_level(s, lw, lw.len(), ka));
    assert(depth(e, b, n) == source_level(s, lw, lw.len(), kb));
    if ka <= kb {
        assert(source_level(s, lw, lw.len(), ka) <= source_level(s, lw, lw.len(), kb));
    }
}

/// Law: two targets never share a wave when either lists the other's id
/// among its `conflicts`.
pub proof fn plan_separates_declared_conflicts(s: Seq<(TargetId, Target)>, a: int, b: int)
    requires
        plannable(s),
        0 <= a < s.len(),
        0 <= b < s.len(),
        a != b,
        declares_conflict(s, a, b) || declares_conflict(s, b, a),
    ensures
        forall|k: int|
            0 <= k < plan_view(s).len() ==> !(#[trigger] plan_view(s)[k].contains(s[a].0@) && plan_view(
                s,
            )[k].contains(s[b].0@)),
{
    let p = plan_indices(s);
    lemma_plan_structure(s);
    assert forall|k: int| 0 <= k < plan_view(s).len() implies !(#[trigger] plan_view(s)[k].contains(
        s[a].0@,
    ) && plan_view(s)[k].contains(s[b].0@)) by {
        if plan_view(s)[k].contains(s[a].0@) && plan_view(s)[k].contains(s[b].0@) {
            let ja = lemma_wave_position(s, k, a);
            let jb = lemma_wave_position(s, k, b);
            if jb < ja {
                assert(compatible(s, p[k][ja] as int, p[k][jb] as int));
            } else {
                assert(ja != jb);
                assert(compatible(s, p[k][jb] as int, p[k][ja] as int));
            }
        }
    }
}

/// Contention is symmetric.
proof fn lemma_contends_symmetric(s: Seq<(TargetId, Target)>, a: int, b: int)
    requires
        contends(s, a, b),
    ensures
        contends(s, b, a),
{
    let (x, y) = choose|x: int, y: int|
        0 <= x < s[a].1.resources@.len() && 0 <= y < s[b].1.resources@.len() && (#[trigger] s[a].1.resources@[x]).resource_id@
            == (#[trigger] s[b].1.resources@[y]).resource_id@ && (s[a].1.resources@[x].access
            == crate::resource::AccessMode::Exclusive || s[b].1.resources@[y].access
            == crate::resource::AccessMode::Exclusive);
    assert(s[b].1.resources@[y].resource_id@ == s[a].1.resources@[x].resource_id@);
}

/// Law: two targets that reference the same resource, at least one of
/// them exclusively, never share a wave.
pub proof fn plan_separates_exclusive_holders(s: Seq<(TargetId, Target)>, a: int, b: int)
    requires
        plannable(s),
        0 <= a < s.len(),
        0 <= b < s.len(),
        a != b,
        contends(s, a, b),
    ensures
        forall|k: int|
            0 <= k < plan_view(s).len() ==> !(#[trigger] plan_view(s)[k].contains(s[a].0@) && plan_view(
                s,
            )[k].contains(s[b].0@)),
{
    let p = plan_indices(s);
    lemma_plan_structure(s);
    lemma_contends_symmetric(s, a, b);
    assert forall|k: int| 0 <= k < plan_view(s).len() implies !(#[trigger] plan_view(s)[k].contains(
        s[a].0@,
    ) && plan_view(s)[k].contains(s[b].0@)) by {
        if plan_view(s)[k].contains(s[a].0@) && plan_view(s)[k].contains(s[b].0@) {
            let ja = lemma_wave_position(s, k, a);
            let jb = lemma_wave_position(s, k, b);
            if jb < ja {
                assert(compatible(s, p[k][ja] as int, p[k][jb] as int));
            } else {
                assert(ja != jb);
                assert(compatible(s, p[k][jb] as int, p[k][ja] as int));
            }
        }
    }
}

/// Law: every wave of the plan is non-empty and lists its ids in
/// strictly increasing order.
pub proof fn plan_waves_are_sorted(s: Seq<(TargetId, Target)>)
    requires
        plannable(s),
    ensures
        forall|k: int| 0 <= k < plan_view(s).len() ==> (#[trigger] plan_view(s)[k]).len() > 0,
        forall|k: int, i: int, j: int|
            0 <= k < plan_view(s).len() && 0 <= i < j < plan_view(s)[k].len() ==> str_lt(
                #[trigger] plan_view(s)[k][i],
                #[trigger] plan_view(s)[k][j],
            ),
{
    let p = plan_indices(s);
    lemma_plan_structure(s);
    lemma_plan_view_entries(s);
    assert forall|k: int, i: int, j: int|
        0 <= k < plan_view(s).len() && 0 <= i < j < plan_view(s)[k].len() implies str_lt(
            #[trigger] plan_view(s)[k][i],
            #[trigger] plan_view(s)[k][j],
        ) by {
        assert(p[k][i] < p[k][j]);
        assert(str_lt(s[p[k][i] as int].0@, s[p[k][j] as int].0@));
    }
}

} // verus!

verus! {

/// Law: the targets of one wave are independent: no target of a wave
/// requires another target of the same wave.
pub proof fn plan_waves_are_independent(s: Seq<(TargetId, Target)>, a: int, b: int, k: int)
    requires
        plannable(s),
        0 <= a < s.len(),
        0 <= b < s.len(),
        0 <= k < plan_view(s).len(),
        plan_view(s)[k].contains(s[a].0@),
        plan_view(s)[k].contains(s[b].0@),
    ensures
        !ids_view(s[a].1.requires@).contains(s[b].0@),
{
    if ids_view(s[a].1.requires@).contains(s[b].0@) {
        plan_runs_requirements_first(s, a, b, k, k);
    }
}

} // verus!

verus! {

/// Where wave `k` starts when the waves are laid end to end.
pub open spec fn wave_offset(waves: Seq<Seq<Seq<char>>>, k: int) -> nat {
    flatten_waves(waves.take(k)).len()
}

/// Entry `j` of wave `k` stands at position `p` once the waves are laid
/// end to end.
pub open spec fn places(waves: Seq<Seq<Seq<char>>>, k: int, j: int, p: int) -> bool {
    0 <= k < waves.len() && 0 <= j < waves[k].len() && p == wave_offset(waves, k) + j
}

/// Dropping the last wave leaves the offsets of the others unchanged,
/// and the last wave starts where the others end.
proof fn lemma_offsets_of_prefix(waves: Seq<Seq<Seq<char>>>)
    requires
        waves.len() > 0,
    ensures
        flatten_waves(waves) == flatten_waves(waves.drop_last()) + waves[waves.len() - 1],
        wave_offset(waves, waves.len() - 1) == flatten_waves(waves.drop_last()).len(),
        wave_offset(waves, waves.len() as int) == flatten_waves(waves).len(),
        forall|k: int|
            0 <= k < waves.len() ==> #[trigger] wave_offset(waves, k) == wave_offset(
                waves.drop_last(),
                k,
            ),
{
    let p = waves.drop_last();
    let m = waves.len() - 1;
    assert(waves.take(waves.len() as int) =~= waves);
    assert(waves.take(m) =~= p);
    assert forall|k: int| 0 <= k < waves.len() implies #[trigger] wave_offset(waves, k) == wave_offset(
        p,
        k,
    ) by {
        if k < m {
            assert(waves.take(k) =~= p.take(k));
        } else {
            assert(p.take(k) =~= p);
        }
    }
}

/// Laying waves end to end puts entry `j` of wave `k` at
/// `wave_offset(k) + j`.
proof fn lemma_flatten_entry(waves: Seq<Seq<Seq<char>>>, k: int, j: int)
    requires
        0 <= k < waves.len(),
        0 <= j < waves[k].len(),
    ensures
        wave_offset(waves, k) + j < flatten_waves(waves).len(),
        flatten_waves(waves)[wave_offset(waves, k) + j] == waves[k][j],
    decreases waves.len(),
{
    let p = waves.drop_last();
    let m = waves.len() - 1;
    lemma_offsets_of_prefix(waves);
    if k < m {
        lemma_flatten_entry(p, k, j);
        assert(waves[k] == p[k]);
    }
}

/// Each position of the waves laid end to end holds an entry of some wave.
proof fn lemma_flatten_origin(waves: Seq<Seq<Seq<char>>>, q: int) -> (kj: (int, int))
    requires
        0 <= q < flatten_waves(waves).len(),
    ensures
        places(waves, kj.0, kj.1, q),
    decreases waves.len(),
{
    let p = waves.drop_last();
    let m = waves.len() - 1;
    lemma_offsets_of_prefix(waves);
    if q < flatten_waves(p).len() {
        let kj = lemma_flatten_origin(p, q);
        assert(waves[kj.0] == p[kj.0]);
        kj
    } else {
        (m, q - flatten_waves(p).len())
    }
}

/// Earlier waves end before later waves start.
proof fn lemma_offsets_increase(waves: Seq<Seq<Seq<char>>>, k1: int, k2: int)
    requires
        0 <= k1 < k2 <= waves.len(),
    ensures
        wave_offset(waves, k1) + waves[k1].len() <= wave_offset(waves, k2),
    decreases waves.len(),
{
    let p = waves.drop_last();
    let m = waves.len() - 1;
    lemma_offsets_of_prefix(waves);
    if k2 <= m {
        lemma_offsets_increase(p, k1, k2);
        assert(waves[k1] == p[k1]);
    } else if k1 < m {
        lemma_offsets_increase(p, k1, m);
        assert(waves[k1] == p[k1]);
        assert(p.take(m) =~= p);
    }
}

/// Law: running a plan wave after wave (the order [`ExecutionRun`]
/// follows) runs every target of the map exactly once and nothing else.
///
/// [`ExecutionRun`]: crate::executor::ExecutionRun
pub proof fn execution_order_runs_each_target_once(s: Seq<(TargetId, Target)>)
    requires
        plannable(s),
    ensures
        forall|i: int|
            0 <= i < s.len() ==> #[trigger] flatten_waves(plan_view(s)).contains((#[trigger] s[i]).0@),
        forall|p: int|
            0 <= p < flatten_waves(plan_view(s)).len() ==> exists|i: int|
                0 <= i < s.len() && #[trigger] flatten_waves(plan_view(s))[p] == (#[trigger] s[i]).0@,
        flatten_waves(plan_view(s)).no_duplicates(),
{
    let pv = plan_view(s);
    let f = flatten_waves(pv);
    plan_schedules_each_target_once(s);
    assert forall|i: int| 0 <= i < s.len() implies #[trigger] f.contains((#[trigger] s[i]).0@) by {
        let (k, j) = choose|k: int, j: int|
            0 <= k < pv.len() && 0 <= j < pv[k].len() && #[trigger] pv[k][j] == (#[trigger] s[i]).0@;
        lemma_flatten_entry(pv, k, j);
    }
    assert forall|p: int| 0 <= p < f.len() implies exists|i: int|
        0 <= i < s.len() && #[trigger] f[p] == (#[trigger] s[i]).0@ by {
        let (k, j) = lemma_flatten_origin(pv, p);
        lemma_flatten_entry(pv, k, j);
        let i = choose|i: int| 0 <= i < s.len() && #[trigger] pv[k][j] == (#[trigger] s[i]).0@;
    }
    assert forall|p1: int, p2: int| 0 <= p1 < f.len() && 0 <= p2 < f.len() && p1 != p2 implies f[p1]
        != f[p2] by {
        let (k1, j1) = lemma_flatten_origin(pv, p1);
        let (k2, j2) = lemma_flatten_origin(pv, p2);
        lemma_flatten_entry(pv, k1, j1);
        lemma_flatten_entry(pv, k2, j2);
        if k1 < k2 {
            lemma_offsets_increase(pv, k1, k2);
        } else if k2 < k1 {
            lemma_offsets_increase(pv, k2, k1);
        }
    }
}

/// Law: running a plan wave after wave runs each target after every
/// target it requires.
pub proof fn execution_order_runs_requirements_first(
    s: Seq<(TargetId, Target)>,
    a: int,
    b: int,
    p: int,
    q: int,
)
    requires
        plannable(s),
        0 <= a < s.len(),
        0 <= b < s.len(),
        ids_view(s[a].1.requires@).contains(s[b].0@),
        0 <= p < flatten_waves(plan_view(s)).len(),
        0 <= q < flatten_waves(plan_view(s)).len(),
        flatten_waves(plan_view(s))[p] == s[a].0@,
        flatten_waves(plan_view(s))[q] == s[b].0@,
    ensures
        q < p,
{
    let pv = plan_view(s);
    let f = flatten_waves(pv);
    let (ka, ja) = lemma_flatten_origin(pv, p);
    let (kb, jb) = lemma_flatten_origin(pv, q);
    lemma_flatten_entry(pv, ka, ja);
    lemma_flatten_entry(pv, kb, jb);
    assert(pv[ka][ja] == s[a].0@);
    assert(pv[kb][jb] == s[b].0@);
    plan_runs_requirements_first(s, a, b, ka, kb);
    lemma_offsets_increase(pv, kb, ka);
}

/// Law: a run of the plan of `s` that has gone through its whole order
/// (every target run once, wave after wave) holds exactly one result per
/// target of the map: a successful result (exit code 0) of that target
/// under each id of the map and no result under any other id, so the
/// report counts as many targets as the map holds.
pub proof fn completed_run_has_one_result_per_target(s: Seq<(TargetId, Target)>, run: ExecutionRun)
    requires
        plannable(s),
        run.order() == flatten_waves(plan_view(s)),
        run.progress() == run.order().len(),
        run.results_follow_progress(),
    ensures
        forall|i: int| 0 <= i < s.len() ==> has_key(run.results(), (#[trigger] s[i]).0@),
        forall|i: int|
            0 <= i < s.len() ==> (lookup(run.results(), (#[trigger] s[i]).0@) matches Some(x) && x.exit_code == 0
                && x.target_id@ == s[i].0@),
        forall|k: Seq<char>|
            has_key(run.results(), k) ==> exists|i: int| 0 <= i < s.len() && (#[trigger] s[i]).0@ == k,
        run.results().len() == s.len(),
{
    let f = flatten_waves(plan_view(s));
    execution_order_runs_each_target_once(s);
    assert(f.take(f.len() as int) =~= f);
    assert forall|i: int| 0 <= i < s.len() implies has_key(run.results(), (#[trigger] s[i]).0@) by {
        assert(f.contains(s[i].0@));
    }
    assert forall|i: int| 0 <= i < s.len() implies (lookup(run.results(), (#[trigger] s[i]).0@) matches Some(x)
        && x.exit_code == 0 && x.target_id@ == s[i].0@) by {
        assert(f.contains(s[i].0@));
        assert(has_key(run.results(), s[i].0@));
        assert(lookup(run.results(), s[i].0@) is Some);
    }
    assert forall|k: Seq<char>| has_key(run.results(), k) implies exists|i: int|
        0 <= i < s.len() && (#[trigger] s[i]).0@ == k by {
        assert(f.contains(k));
        let p = choose|p: int| 0 <= p < f.len() && f[p] == k;
        assert(f[p] == f[p]);
    }
    let ids = s.map_values(|e: (TargetId, Target)| e.0@);
    assert(ids.no_duplicates()) by {
        assert forall|i: int, j: int| 0 <= i < ids.len() && 0 <= j < ids.len() && i != j implies ids[i] != ids[j] by {
            lemma_ids_distinct(s, i, j);
        }
    }
    assert(f.to_set() =~= ids.to_set()) by {
        assert forall|k: Seq<char>| f.contains(k) implies ids.contains(k) by {
            let p = choose|p: int| 0 <= p < f.len() && f[p] == k;
            assert(f[p] == f[p]);
            let i = choose|i: int| 0 <= i < s.len() && #[trigger] f[p] == (#[trigger] s[i]).0@;
            assert(ids[i] == k);
        }
        assert forall|k: Seq<char>| ids.contains(k) implies f.contains(k) by {
            let i = choose|i: int| 0 <= i < ids.len() && ids[i] == k;
            assert(f.contains((s[i]).0@));
        }
    }
    f.unique_seq_to_set();
    ids.unique_seq_to_set();
}

/// Law: the plan packs each dependency level first-fit. When a target
/// stands in a later wave than another wave of its own level (targets of
/// the same depth in the dependency graph), that earlier wave holds a
/// target sorting before it with which it declares a conflict (either
/// way) or contends for an exclusively held resource: no target is put
/// off while an earlier wave of its level could have taken it.
pub proof fn plan_packs_each_level_first_fit(s: Seq<(TargetId, Target)>, k1: int, k2: int, i: int)
    requires
        plannable(s),
        0 <= k1 < k2 < plan_indices(s).len(),
        0 <= i < plan_indices(s)[k2].len(),
        plan_indices(s)[k1].len() > 0,
        depth(dep_edges(s), plan_indices(s)[k1][0] as int, s.len()) == depth(
            dep_edges(s),
            plan_indices(s)[k2][i] as int,
            s.len(),
        ),
    ensures
        exists|x: int|
            0 <= x < plan_indices(s)[k1].len() && #[trigger] plan_indices(s)[k1][x] < plan_indices(s)[k2][i]
                && !compatible(s, plan_indices(s)[k2][i] as int, plan_indices(s)[k1][x] as int),
{
    let p = plan_indices(s);
    let n = s.len();
    let e = dep_edges(s);
    let lw = level_waves(e, n);
    let m = lw.len();
    lemma_plan_structure(s);
    lemma_split_all(s, lw, m);
    assert(depth(e, p[k1][0] as int, n) == source_level(s, lw, m, k1));
    assert(depth(e, p[k2][i] as int, n) == source_level(s, lw, m, k2));
    let l = source_level(s, lw, m, k1);
    assert(source_level(s, lw, m, k2) == l);
    let st = level_start(s, lw, l);
    let sw = split_wave(s, lw[l as int]);
    assert(p[k1] == sw[k1 - st]);
    assert(p[k2] == sw[k2 - st]);
    lemma_level_group_members(e, n, l, n);
    assert(lw[l as int] == level_group(e, n, l));
    split_is_first_fit(s, lw[l as int]);
    assert(blocked_by(s, sw, k2 - st, i, k1 - st));
    let x = choose|x: int|
        0 <= x < sw[k1 - st].len() && #[trigger] sw[k1 - st][x] < sw[k2 - st][i] && !compatible(
            s,
            sw[k2 - st][i] as int,
            sw[k1 - st][x] as int,
        );
    assert(p[k1][x] == sw[k1 - st][x]);
}

} // verus!
