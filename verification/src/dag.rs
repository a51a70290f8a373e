//! Facts about directed graphs given as edge sequences: in-degree counts,
//! out-neighbour lists, cycles, and the depth of a node (the length of
//! the longest chain of edges that ends at it). The planner's proofs rest
//! on these.

use vstd::prelude::*;
use vstd::set_lib::*;
use crate::graph::{out_neighbors, is_edge, is_walk, has_cycle};

verus! {

/// All edge endpoints are node indices below `n`.
pub open spec fn edges_in_range(edges: Seq<(int, int)>, n: int) -> bool {
    forall|e: int|
        0 <= e < edges.len() ==> 0 <= (#[trigger] edges[e]).0 < n && 0 <= edges[e].1 < n
}

/// The number of edges into `v` whose source is still unfinished
/// (`r[source] == 0`).
pub open spec fn cnt_in(edges: Seq<(int, int)>, v: int, r: Seq<usize>) -> nat
    decreases edges.len(),
{
    if edges.len() == 0 {
        0
    } else {
        cnt_in(edges.drop_last(), v, r) + (if edges.last().1 == v && r[edges.last().0] == 0 {
            1nat
        } else {
            0nat
        })
    }
}

/// The number of edges equal to `(u, v)`.
pub open spec fn cnt_pair(edges: Seq<(int, int)>, u: int, v: int) -> nat
    decreases edges.len(),
{
    if edges.len() == 0 {
        0
    } else {
        cnt_pair(edges.drop_last(), u, v) + (if edges.last() == (u, v) {
            1nat
        } else {
            0nat
        })
    }
}

/// The number of occurrences of `v` in `s`.
pub open spec fn seq_count(s: Seq<int>, v: int) -> nat
    decreases s.len(),
{
    if s.len() == 0 {
        0
    } else {
        seq_count(s.drop_first(), v) + (if s[0] == v {
            1nat
        } else {
            0nat
        })
    }
}

/// The number of nonzero entries.
pub open spec fn num_nonzero(r: Seq<usize>) -> nat
    decreases r.len(),
{
    if r.len() == 0 {
        0
    } else {
        num_nonzero(r.drop_last()) + (if r.last() != 0 {
            1nat
        } else {
            0nat
        })
    }
}

/// Finishing `u` removes its edges from every in-degree count.
pub proof fn lemma_cnt_in_update(edges: Seq<(int, int)>, v: int, r: Seq<usize>, u: int, x: usize)
    requires
        0 <= u < r.len(),
        r[u] == 0,
        x != 0,
        edges_in_range(edges, r.len() as int),
    ensures
        cnt_in(edges, v, r.update(u, x)) + cnt_pair(edges, u, v) == cnt_in(edges, v, r),
    decreases edges.len(),
{
    if edges.len() > 0 {
        let p = edges.drop_last();
        assert forall|e: int| 0 <= e < p.len() implies 0 <= (#[trigger] p[e]).0 < r.len() && 0
            <= p[e].1 < r.len() by {
            assert(p[e] == edges[e]);
        }
        lemma_cnt_in_update(p, v, r, u, x);
        assert(edges.last() == edges[edges.len() - 1]);
    }
}

/// An in-degree count is bounded by the number of edges.
pub proof fn lemma_cnt_in_bound(edges: Seq<(int, int)>, v: int, r: Seq<usize>)
    ensures
        cnt_in(edges, v, r) <= edges.len(),
    decreases edges.len(),
{
    if edges.len() > 0 {
        lemma_cnt_in_bound(edges.drop_last(), v, r);
    }
}

/// A positive count has an unfinished source; a zero count has none.
pub proof fn lemma_cnt_in_witness(edges: Seq<(int, int)>, v: int, r: Seq<usize>)
    ensures
        cnt_in(edges, v, r) > 0 ==> exists|e: int|
            0 <= e < edges.len() && (#[trigger] edges[e]).1 == v && r[edges[e].0] == 0,
        cnt_in(edges, v, r) == 0 ==> forall|e: int|
            0 <= e < edges.len() && (#[trigger] edges[e]).1 == v ==> r[edges[e].0] != 0,
    decreases edges.len(),
{
    if edges.len() > 0 {
        let p = edges.drop_last();
        lemma_cnt_in_witness(p, v, r);
        if cnt_in(edges, v, r) > 0 {
            if cnt_in(p, v, r) > 0 {
                let e = choose|e: int| 0 <= e < p.len() && (#[trigger] p[e]).1 == v && r[p[e].0] == 0;
                assert(edges[e] == p[e]);
            } else {
                assert(edges[edges.len() - 1] == edges.last());
            }
        }
        if cnt_in(edges, v, r) == 0 {
            assert forall|e: int| 0 <= e < edges.len() && (#[trigger] edges[e]).1 == v implies r[edges[e].0]
                != 0 by {
                if e < edges.len() - 1 {
                    assert(edges[e] == p[e]);
                }
            }
        }
    }
}

/// The out-neighbour list of `u` holds `v` once per edge `(u, v)`.
pub proof fn lemma_seq_count_out_neighbors(edges: Seq<(int, int)>, u: int, v: int)
    ensures
        seq_count(out_neighbors(edges, u), v) == cnt_pair(edges, u, v),
    decreases edges.len(),
{
    if edges.len() > 0 {
        let p = edges.drop_last();
        lemma_seq_count_out_neighbors(p, u, v);
        if edges.last().0 == u {
            let s = seq![edges.last().1] + out_neighbors(p, u);
            assert(s.drop_first() =~= out_neighbors(p, u));
        }
    }
}

/// Every out-neighbour of `u` is joined to it by an edge.
pub proof fn lemma_out_neighbors_edge(edges: Seq<(int, int)>, u: int, i: int)
    requires
        0 <= i < out_neighbors(edges, u).len(),
    ensures
        is_edge(edges, u, out_neighbors(edges, u)[i]),
    decreases edges.len(),
{
    let p = edges.drop_last();
    if edges.last().0 == u {
        if i == 0 {
            assert(edges[edges.len() - 1] == (u, out_neighbors(edges, u)[i]));
        } else {
            lemma_out_neighbors_edge(p, u, i - 1);
            let e = choose|e: int| 0 <= e < p.len() && #[trigger] p[e] == (u, out_neighbors(p, u)[i - 1]);
            assert(edges[e] == p[e]);
        }
    } else {
        lemma_out_neighbors_edge(p, u, i);
        let e = choose|e: int| 0 <= e < p.len() && #[trigger] p[e] == (u, out_neighbors(p, u)[i]);
        assert(edges[e] == p[e]);
    }
}

/// A count over a suffix exceeds the count over a shorter suffix by the
/// element dropped.
pub proof fn lemma_seq_count_skip(s: Seq<int>, t: int, v: int)
    requires
        0 <= t < s.len(),
    ensures
        seq_count(s.skip(t), v) == seq_count(s.skip(t + 1), v) + (if s[t] == v {
            1nat
        } else {
            0nat
        }),
{
    assert(s.skip(t).drop_first() =~= s.skip(t + 1));
}

/// Marking an unfinished entry finished adds one to the count.
pub proof fn lemma_num_nonzero_update(r: Seq<usize>, u: int, x: usize)
    requires
        0 <= u < r.len(),
        r[u] == 0,
        x != 0,
    ensures
        num_nonzero(r.update(u, x)) == num_nonzero(r) + 1,
    decreases r.len(),
{
    let r2 = r.update(u, x);
    if u == r.len() - 1 {
        assert(r2.drop_last() =~= r.drop_last());
    } else {
        assert(r2.drop_last() =~= r.drop_last().update(u, x));
        lemma_num_nonzero_update(r.drop_last(), u, x);
    }
}

/// The count of nonzero entries is at most the length.
pub proof fn lemma_num_nonzero_bound(r: Seq<usize>)
    ensures
        num_nonzero(r) <= r.len(),
    decreases r.len(),
{
    if r.len() > 0 {
        lemma_num_nonzero_bound(r.drop_last());
    }
}

/// A sequence of `n + 1` values below `n` repeats a value.
pub proof fn lemma_pigeonhole(s: Seq<int>, n: nat)
    requires
        s.len() == n + 1,
        forall|i: int| 0 <= i < s.len() ==> 0 <= #[trigger] s[i] < n,
    ensures
        exists|i: int, j: int| 0 <= i < j < s.len() && #[trigger] s[i] == #[trigger] s[j],
{
    if !(exists|i: int, j: int| 0 <= i < j < s.len() && #[trigger] s[i] == #[trigger] s[j]) {
        assert(s.no_duplicates()) by {
            assert forall|i: int, j: int| 0 <= i < s.len() && 0 <= j < s.len() && i != j implies s[i]
                != s[j] by {
                if i < j {
                    assert(!(s[i] == s[j]));
                } else {
                    assert(!(s[j] == s[i]));
                }
            }
        }
        s.unique_seq_to_set();
        lemma_int_range(0, n as int);
        assert(s.to_set().subset_of(set_int_range(0, n as int)));
        lemma_len_subset(s.to_set(), set_int_range(0, n as int));
    }
}

/// Every unfinished node has an edge from an unfinished node.
#[verifier::opaque]
pub open spec fn all_stuck(edges: Seq<(int, int)>, r: Seq<usize>) -> bool {
    forall|x: int|
        0 <= x < r.len() && r[x] == 0 ==> exists|e: int|
            0 <= e < edges.len() && (#[trigger] edges[e]).1 == x && r[edges[e].0] == 0
}

/// A chain of `k + 1` unfinished nodes ending at `v`, each joined to the
/// next by an edge, built backwards by choosing an unfinished source.
#[verifier::opaque]
pub open spec fn back_chain(edges: Seq<(int, int)>, r: Seq<usize>, v: int, k: nat) -> Seq<int>
    decreases k,
{
    if k == 0 {
        seq![v]
    } else {
        let c = back_chain(edges, r, v, (k - 1) as nat);
        let e = choose|e: int| 0 <= e < edges.len() && (#[trigger] edges[e]).1 == c[0] && r[edges[e].0] == 0;
        seq![edges[e].0] + c
    }
}

proof fn lemma_back_chain(edges: Seq<(int, int)>, r: Seq<usize>, v: int, k: nat)
    requires
        edges_in_range(edges, r.len() as int),
        0 <= v < r.len(),
        r[v] == 0,
        all_stuck(edges, r),
    ensures
        back_chain(edges, r, v, k).len() == k + 1,
        forall|i: int|
            0 <= i < k + 1 ==> 0 <= #[trigger] back_chain(edges, r, v, k)[i] < r.len() && r[back_chain(
                edges,
                r,
                v,
                k,
            )[i]] == 0,
        is_walk(edges, back_chain(edges, r, v, k)),
    decreases k,
{
    reveal(back_chain);
    if k > 0 {
        lemma_back_chain(edges, r, v, (k - 1) as nat);
        let c = back_chain(edges, r, v, (k - 1) as nat);
        assert(0 <= c[0] < r.len() && r[c[0]] == 0);
        reveal(all_stuck);
        let e = choose|e: int| 0 <= e < edges.len() && (#[trigger] edges[e]).1 == c[0] && r[edges[e].0] == 0;
        let w = seq![edges[e].0] + c;
        assert(w == back_chain(edges, r, v, k));
        assert forall|i: int| 0 <= i < w.len() - 1 implies is_edge(edges, #[trigger] w[i], w[i + 1]) by {
            if i == 0 {
                assert(edges[e] == (w[0], w[1]));
            } else {
                assert(w[i] == c[i - 1] && w[i + 1] == c[i]);
                assert(is_edge(edges, c[i - 1], c[i - 1 + 1]));
            }
        }
    }
}

/// A piece of a walk is a walk.
proof fn lemma_walk_subrange(edges: Seq<(int, int)>, c: Seq<int>, i: int, j: int)
    requires
        is_walk(edges, c),
        0 <= i <= j < c.len(),
    ensures
        is_walk(edges, c.subrange(i, j + 1)),
{
    let w = c.subrange(i, j + 1);
    assert forall|k: int| 0 <= k < w.len() - 1 implies is_edge(edges, #[trigger] w[k], w[k + 1]) by {
        assert(w[k] == c[i + k] && w[k + 1] == c[i + k + 1]);
        assert(is_edge(edges, c[i + k], c[i + k + 1]));
    }
}

/// When every unfinished node has an unfinished source, the graph has a
/// cycle.
pub proof fn lemma_stuck_nodes_cycle(edges: Seq<(int, int)>, r: Seq<usize>, v: int)
    requires
        edges_in_range(edges, r.len() as int),
        0 <= v < r.len(),
        r[v] == 0,
        all_stuck(edges, r),
    ensures
        has_cycle(edges),
{
    let n = r.len();
    lemma_back_chain(edges, r, v, n);
    let c = back_chain(edges, r, v, n);
    assert(forall|i: int| 0 <= i < c.len() ==> 0 <= #[trigger] c[i] < n);
    lemma_pigeonhole(c, n);
    let (i, j) = choose|i: int, j: int| 0 <= i < j < c.len() && #[trigger] c[i] == #[trigger] c[j];
    lemma_walk_subrange(edges, c, i, j);
    let w = c.subrange(i, j + 1);
    assert(w[0] == w.last());
}

/// The depth of `v` when chains of at most `fuel` edges are followed: 0
/// without incoming edges, else one more than the deepest source.
pub open spec fn depth(edges: Seq<(int, int)>, v: int, fuel: nat) -> nat
    decreases fuel, edges.len() + 1,
{
    if fuel == 0 {
        0
    } else {
        pred_depth(edges, v, (fuel - 1) as nat, edges.len())
    }
}

/// The largest `1 + depth(source)` over the first `k` edges into `v`,
/// or 0 when there is none.
pub open spec fn pred_depth(edges: Seq<(int, int)>, v: int, fuel: nat, k: nat) -> nat
    decreases fuel + 1, k,
{
    if k == 0 || k > edges.len() {
        0
    } else {
        let m = pred_depth(edges, v, fuel, (k - 1) as nat);
        if edges[k - 1].1 == v {
            let d = 1 + depth(edges, edges[k - 1].0, fuel);
            if d > m {
                d
            } else {
                m
            }
        } else {
            m
        }
    }
}

proof fn lemma_pred_depth_upper(edges: Seq<(int, int)>, v: int, fuel: nat, k: nat, m: nat)
    requires
        k <= edges.len(),
        forall|e: int|
            0 <= e < k && (#[trigger] edges[e]).1 == v ==> 1 + depth(edges, edges[e].0, fuel) <= m,
    ensures
        pred_depth(edges, v, fuel, k) <= m,
    decreases k,
{
    if k > 0 {
        lemma_pred_depth_upper(edges, v, fuel, (k - 1) as nat, m);
    }
}

proof fn lemma_pred_depth_lower(edges: Seq<(int, int)>, v: int, fuel: nat, k: nat, e0: int)
    requires
        k <= edges.len(),
        0 <= e0 < k,
        edges[e0].1 == v,
    ensures
        pred_depth(edges, v, fuel, k) >= 1 + depth(edges, edges[e0].0, fuel),
    decreases k,
{
    if e0 < k - 1 {
        lemma_pred_depth_lower(edges, v, fuel, (k - 1) as nat, e0);
    }
}

/// Node levels `r[v] - 1` that respect the edges: every source lies on a
/// lower level, and a node above level 0 has a source on the level just
/// below.
pub open spec fn level_facts(edges: Seq<(int, int)>, r: Seq<usize>) -> bool {
    &&& forall|e: int| 0 <= e < edges.len() ==> r[(#[trigger] edges[e]).0] < r[edges[e].1]
    &&& forall|v: int|
        0 <= v < r.len() && #[trigger] r[v] > 1 ==> exists|e: int|
            0 <= e < edges.len() && (#[trigger] edges[e]).1 == v && r[edges[e].0] == r[v] - 1
}

/// Levels that respect the edges are the depths.
pub proof fn lemma_depth_levels(edges: Seq<(int, int)>, r: Seq<usize>, fuel: nat)
    requires
        edges_in_range(edges, r.len() as int),
        level_facts(edges, r),
        forall|v: int| 0 <= v < r.len() ==> #[trigger] r[v] >= 1,
    ensures
        forall|v: int|
            0 <= v < r.len() && r[v] <= fuel ==> #[trigger] depth(edges, v, fuel) == r[v] - 1,
    decreases fuel,
{
    if fuel > 0 {
        lemma_depth_levels(edges, r, (fuel - 1) as nat);
        assert forall|v: int| 0 <= v < r.len() && r[v] <= fuel implies #[trigger] depth(
            edges,
            v,
            fuel,
        ) == r[v] - 1 by {
            let f = (fuel - 1) as nat;
            assert forall|e: int| 0 <= e < edges.len() && (#[trigger] edges[e]).1 == v implies 1
                + depth(edges, edges[e].0, f) <= (r[v] - 1) as nat by {
                assert(r[edges[e].0] < r[edges[e].1]);
                assert(r[edges[e].0] >= 1);
            }
            lemma_pred_depth_upper(edges, v, f, edges.len(), (r[v] - 1) as nat);
            if r[v] > 1 {
                let e = choose|e: int|
                    0 <= e < edges.len() && (#[trigger] edges[e]).1 == v && r[edges[e].0] == r[v] - 1;
                lemma_pred_depth_lower(edges, v, f, edges.len(), e);
            }
        }
    }
}

} // verus!

verus! {

/// The nodes below `m` whose depth (following chains of up to `n` edges)
/// is `k`, in increasing order.
pub open spec fn level_group_upto(edges: Seq<(int, int)>, n: nat, k: nat, m: nat) -> Seq<usize>
    decreases m,
{
    if m == 0 {
        seq![]
    } else {
        level_group_upto(edges, n, k, (m - 1) as nat) + (if depth(edges, m - 1, n) == k {
            seq![(m - 1) as usize]
        } else {
            seq![]
        })
    }
}

/// The nodes of depth `k` among the `n` nodes, in increasing order.
pub open spec fn level_group(edges: Seq<(int, int)>, n: nat, k: nat) -> Seq<usize> {
    level_group_upto(edges, n, k, n)
}

/// The largest depth among the nodes below `m`.
pub open spec fn max_depth_upto(edges: Seq<(int, int)>, n: nat, m: nat) -> nat
    decreases m,
{
    if m == 0 {
        0
    } else {
        let a = max_depth_upto(edges, n, (m - 1) as nat);
        let b = depth(edges, m - 1, n);
        if a > b {
            a
        } else {
            b
        }
    }
}

/// The number of levels: one more than the largest depth, or 0 for an
/// empty graph.
pub open spec fn level_count(edges: Seq<(int, int)>, n: nat) -> nat {
    if n == 0 {
        0
    } else {
        max_depth_upto(edges, n, n) + 1
    }
}

/// The nodes grouped by depth: group `k` holds the nodes of depth `k`,
/// in increasing order.
pub open spec fn level_waves(edges: Seq<(int, int)>, n: nat) -> Seq<Seq<usize>> {
    Seq::new(level_count(edges, n), |k: int| level_group(edges, n, k as nat))
}

/// The nodes below `m` with `r[v] == c`, in increasing order.
pub open spec fn round_group_upto(r: Seq<usize>, c: usize, m: nat) -> Seq<usize>
    decreases m,
{
    if m == 0 {
        seq![]
    } else {
        round_group_upto(r, c, (m - 1) as nat) + (if r[m - 1] == c {
            seq![(m - 1) as usize]
        } else {
            seq![]
        })
    }
}

/// Groups by depth are groups by round when each depth is its round less one.
pub proof fn lemma_groups_match(edges: Seq<(int, int)>, n: nat, r: Seq<usize>, k: nat, m: nat)
    requires
        m <= r.len(),
        k < usize::MAX,
        forall|v: int| 0 <= v < m ==> #[trigger] depth(edges, v, n) == r[v] - 1,
        forall|v: int| 0 <= v < m ==> #[trigger] r[v] >= 1,
    ensures
        level_group_upto(edges, n, k, m) == round_group_upto(r, (k + 1) as usize, m),
    decreases m,
{
    if m > 0 {
        lemma_groups_match(edges, n, r, k, (m - 1) as nat);
        assert(depth(edges, m - 1, n) == r[m - 1] - 1);
    }
}

/// A round group depends only on which entries equal the round.
pub proof fn lemma_round_group_stable(r: Seq<usize>, r2: Seq<usize>, c: usize, m: nat)
    requires
        m <= r.len(),
        m <= r2.len(),
        forall|v: int| 0 <= v < m ==> (r[v] == c) == (r2[v] == c),
    ensures
        round_group_upto(r, c, m) == round_group_upto(r2, c, m),
    decreases m,
{
    if m > 0 {
        lemma_round_group_stable(r, r2, c, (m - 1) as nat);
    }
}

/// Every member of a round group lies below `m` and is in that round;
/// members come in increasing order.
pub proof fn lemma_round_group_members(r: Seq<usize>, c: usize, m: nat)
    requires
        m <= r.len(),
        m <= usize::MAX,
    ensures
        forall|i: int|
            0 <= i < round_group_upto(r, c, m).len() ==> #[trigger] round_group_upto(r, c, m)[i] < m
                && r[round_group_upto(r, c, m)[i] as int] == c,
        forall|i: int, j: int|
            0 <= i < j < round_group_upto(r, c, m).len() ==> #[trigger] round_group_upto(r, c, m)[i]
                < #[trigger] round_group_upto(r, c, m)[j],
        forall|v: int|
            0 <= v < m && r[v] == c ==> #[trigger] round_group_upto(r, c, m).contains(v as usize),
    decreases m,
{
    if m > 0 {
        lemma_round_group_members(r, c, (m - 1) as nat);
        let p = round_group_upto(r, c, (m - 1) as nat);
        let s = round_group_upto(r, c, m);
        if r[m - 1] == c {
            assert(s == p.push((m - 1) as usize));
            assert forall|v: int| 0 <= v < m && r[v] == c implies #[trigger] s.contains(v as usize) by {
                if v < m - 1 {
                    assert(p.contains(v as usize));
                    let i = choose|i: int| 0 <= i < p.len() && p[i] == v as usize;
                    assert(s[i] == v as usize);
                } else {
                    assert(s[s.len() - 1] == v as usize);
                }
            }
        } else {
            assert(s =~= p);
        }
    }
}

proof fn lemma_max_depth_upper(edges: Seq<(int, int)>, n: nat, m: nat, b: nat)
    requires
        forall|v: int| 0 <= v < m ==> #[trigger] depth(edges, v, n) <= b,
    ensures
        max_depth_upto(edges, n, m) <= b,
    decreases m,
{
    if m > 0 {
        lemma_max_depth_upper(edges, n, (m - 1) as nat, b);
        assert(depth(edges, m - 1, n) <= b);
    }
}

proof fn lemma_max_depth_lower(edges: Seq<(int, int)>, n: nat, m: nat, v: int)
    requires
        0 <= v < m,
    ensures
        max_depth_upto(edges, n, m) >= depth(edges, v, n),
    decreases m,
{
    if v < m - 1 {
        lemma_max_depth_lower(edges, n, (m - 1) as nat, v);
    }
}

/// With depths `r[v] - 1`, rounds between 1 and `w`, and some node in
/// round `w`, there are exactly `w` levels.
pub proof fn lemma_level_count(edges: Seq<(int, int)>, n: nat, r: Seq<usize>, w: nat, top: int)
    requires
        r.len() == n,
        forall|v: int| 0 <= v < n ==> #[trigger] depth(edges, v, n) == r[v] - 1,
        forall|v: int| 0 <= v < n ==> 1 <= #[trigger] r[v] <= w,
        0 <= top < n,
        r[top] == w,
    ensures
        level_count(edges, n) == w,
{
    assert forall|v: int| 0 <= v < n implies #[trigger] depth(edges, v, n) <= (w - 1) as nat by {
        assert(1 <= r[v] <= w);
    }
    lemma_max_depth_upper(edges, n, n, (w - 1) as nat);
    lemma_max_depth_lower(edges, n, n, top);
    assert(depth(edges, top, n) == r[top] - 1);
}

} // verus!

verus! {

/// No entry of an all-zero sequence is nonzero.
pub proof fn lemma_num_nonzero_zeros(n: nat)
    ensures
        num_nonzero(Seq::new(n, |i: int| 0usize)) == 0,
    decreases n,
{
    if n > 0 {
        assert(Seq::new(n, |i: int| 0usize).drop_last() =~= Seq::new((n - 1) as nat, |i: int| 0usize));
        lemma_num_nonzero_zeros((n - 1) as nat);
    }
}

/// A sequence with a zero entry has fewer nonzero entries than its length.
pub proof fn lemma_num_nonzero_full(r: Seq<usize>, u: int)
    requires
        0 <= u < r.len(),
        r[u] == 0,
    ensures
        num_nonzero(r) < r.len(),
    decreases r.len(),
{
    if u == r.len() - 1 {
        lemma_num_nonzero_bound(r.drop_last());
    } else {
        lemma_num_nonzero_full(r.drop_last(), u);
    }
}

} // verus!

verus! {

/// Every member of a level group lies below `m`, has depth `k`, and the
/// members come in increasing order.
pub proof fn lemma_level_group_members(edges: Seq<(int, int)>, n: nat, k: nat, m: nat)
    requires
        m <= usize::MAX,
    ensures
        forall|i: int|
            0 <= i < level_group_upto(edges, n, k, m).len() ==> #[trigger] level_group_upto(edges, n, k, m)[i]
                < m && depth(edges, level_group_upto(edges, n, k, m)[i] as int, n) == k,
        forall|i: int, j: int|
            0 <= i < j < level_group_upto(edges, n, k, m).len() ==> #[trigger] level_group_upto(
                edges,
                n,
                k,
                m,
            )[i] < #[trigger] level_group_upto(edges, n, k, m)[j],
        forall|v: int|
            0 <= v < m && depth(edges, v, n) == k ==> #[trigger] level_group_upto(edges, n, k, m).contains(
                v as usize,
            ),
    decreases m,
{
    if m > 0 {
        lemma_level_group_members(edges, n, k, (m - 1) as nat);
        let p = level_group_upto(edges, n, k, (m - 1) as nat);
        let s = level_group_upto(edges, n, k, m);
        if depth(edges, m - 1, n) == k {
            assert(s == p.push((m - 1) as usize));
            assert forall|v: int| 0 <= v < m && depth(edges, v, n) == k implies #[trigger] s.contains(
                v as usize,
            ) by {
                if v < m - 1 {
                    assert(p.contains(v as usize));
                    let i = choose|i: int| 0 <= i < p.len() && p[i] == v as usize;
                    assert(s[i] == v as usize);
                } else {
                    assert(s[s.len() - 1] == v as usize);
                }
            }
        } else {
            assert(s =~= p);
        }
    }
}

} // verus!

verus! {

/// A depth never exceeds the chain length it may follow.
pub proof fn lemma_depth_le_fuel(edges: Seq<(int, int)>, v: int, fuel: nat)
    ensures
        depth(edges, v, fuel) <= fuel,
    decreases fuel,
{
    if fuel > 0 {
        let f = (fuel - 1) as nat;
        assert forall|e: int| 0 <= e < edges.len() && (#[trigger] edges[e]).1 == v implies 1 + depth(
            edges,
            edges[e].0,
            f,
        ) <= fuel by {
            lemma_depth_le_fuel(edges, edges[e].0, f);
        }
        lemma_pred_depth_upper(edges, v, f, edges.len(), fuel);
    }
}

/// A positive `pred_depth` is attained by one of the edges it ranges over.
proof fn lemma_pred_depth_witness(edges: Seq<(int, int)>, v: int, fuel: nat, k: nat)
    requires
        k <= edges.len(),
        pred_depth(edges, v, fuel, k) > 0,
    ensures
        exists|e: int|
            0 <= e < k && (#[trigger] edges[e]).1 == v && pred_depth(edges, v, fuel, k) == 1 + depth(
                edges,
                edges[e].0,
                fuel,
            ),
    decreases k,
{
    let m = pred_depth(edges, v, fuel, (k - 1) as nat);
    if edges[k - 1].1 == v && 1 + depth(edges, edges[k - 1].0, fuel) > m {
        assert(edges[k - 1].1 == v);
    } else {
        lemma_pred_depth_witness(edges, v, fuel, (k - 1) as nat);
        let e = choose|e: int|
            0 <= e < k - 1 && (#[trigger] edges[e]).1 == v && pred_depth(edges, v, fuel, (k - 1) as nat)
                == 1 + depth(edges, edges[e].0, fuel);
        assert(edges[e].1 == v);
    }
}

/// More chain length never lowers a depth.
pub proof fn lemma_depth_mono(edges: Seq<(int, int)>, v: int, fuel: nat)
    ensures
        depth(edges, v, fuel) <= depth(edges, v, fuel + 1),
    decreases fuel,
{
    if fuel > 0 {
        let f = (fuel - 1) as nat;
        if depth(edges, v, fuel) > 0 {
            lemma_pred_depth_witness(edges, v, f, edges.len());
            let e = choose|e: int|
                0 <= e < edges.len() && (#[trigger] edges[e]).1 == v && pred_depth(edges, v, f, edges.len())
                    == 1 + depth(edges, edges[e].0, f);
            lemma_depth_mono(edges, edges[e].0, f);
            lemma_pred_depth_lower(edges, v, fuel, edges.len(), e);
        }
    }
}

/// When one more unit of chain length raises a depth, the depth uses the
/// whole length.
proof fn lemma_depth_jump(edges: Seq<(int, int)>, v: int, fuel: nat)
    requires
        depth(edges, v, fuel + 1) > depth(edges, v, fuel),
    ensures
        depth(edges, v, fuel + 1) == fuel + 1,
    decreases fuel,
{
    lemma_pred_depth_witness(edges, v, fuel, edges.len());
    let e = choose|e: int|
        0 <= e < edges.len() && (#[trigger] edges[e]).1 == v && pred_depth(edges, v, fuel, edges.len()) == 1
            + depth(edges, edges[e].0, fuel);
    lemma_depth_le_fuel(edges, edges[e].0, fuel);
    if fuel > 0 {
        let f = (fuel - 1) as nat;
        lemma_pred_depth_lower(edges, v, f, edges.len(), e);
        lemma_depth_jump(edges, edges[e].0, f);
    }
}

/// An edge into `v` whose source attains the depth of `v` (following
/// chains of up to `f + 1` edges).
pub open spec fn deep_pred(edges: Seq<(int, int)>, v: int, f: nat) -> int {
    choose|e: int|
        0 <= e < edges.len() && (#[trigger] edges[e]).1 == v && pred_depth(edges, v, f, edges.len()) == 1
            + depth(edges, edges[e].0, f)
}

/// A chain of `depth + 1` nodes ending at `v`, each joined to the next by
/// an edge, following the edges that attain the depth.
pub open spec fn deep_chain(edges: Seq<(int, int)>, v: int, fuel: nat) -> Seq<int>
    decreases fuel,
{
    if fuel == 0 || depth(edges, v, fuel) == 0 {
        seq![v]
    } else {
        let f = (fuel - 1) as nat;
        deep_chain(edges, edges[deep_pred(edges, v, f)].0, f).push(v)
    }
}

proof fn lemma_deep_chain(edges: Seq<(int, int)>, v: int, fuel: nat, n: int)
    requires
        edges_in_range(edges, n),
        0 <= v < n,
    ensures
        deep_chain(edges, v, fuel).len() == depth(edges, v, fuel) + 1,
        deep_chain(edges, v, fuel).last() == v,
        forall|i: int|
            0 <= i < deep_chain(edges, v, fuel).len() ==> 0 <= #[trigger] deep_chain(edges, v, fuel)[i] < n,
        is_walk(edges, deep_chain(edges, v, fuel)),
    decreases fuel,
{
    if fuel > 0 && depth(edges, v, fuel) > 0 {
        let f = (fuel - 1) as nat;
        lemma_pred_depth_witness(edges, v, f, edges.len());
        let e = deep_pred(edges, v, f);
        let u = edges[e].0;
        lemma_deep_chain(edges, u, f, n);
        let c = deep_chain(edges, u, f);
        let w = c.push(v);
        assert(w == deep_chain(edges, v, fuel));
        assert forall|i: int| 0 <= i < w.len() - 1 implies is_edge(edges, #[trigger] w[i], w[i + 1]) by {
            if i == w.len() - 2 {
                assert(w[i] == c.last() && w[i + 1] == v);
                assert(edges[e] == (u, v));
            } else {
                assert(w[i] == c[i] && w[i + 1] == c[i + 1]);
                assert(is_edge(edges, c[i], c[i + 1]));
            }
        }
    }
}

/// In an acyclic graph on `n` nodes, the source of an edge is shallower
/// than its target.
pub proof fn lemma_edge_depth(edges: Seq<(int, int)>, n: nat, e: int)
    requires
        edges_in_range(edges, n as int),
        !has_cycle(edges),
        0 <= e < edges.len(),
    ensures
        depth(edges, edges[e].0, n) < depth(edges, edges[e].1, n),
{
    let b = edges[e].0;
    let a = edges[e].1;
    let f = (n - 1) as nat;
    lemma_pred_depth_lower(edges, a, f, edges.len(), e);
    lemma_depth_mono(edges, b, f);
    if depth(edges, b, n) > depth(edges, b, f) {
        lemma_depth_jump(edges, b, f);
        lemma_deep_chain(edges, b, n, n as int);
        let c = deep_chain(edges, b, n);
        lemma_pigeonhole(c, n);
        let (i, j) = choose|i: int, j: int| 0 <= i < j < c.len() && #[trigger] c[i] == #[trigger] c[j];
        lemma_walk_subrange(edges, c, i, j);
        let w = c.subrange(i, j + 1);
        assert(w[0] == w.last());
    }
}

/// Every node lies on a level below the level count.
pub proof fn lemma_depth_below_count(edges: Seq<(int, int)>, n: nat, v: int)
    requires
        0 <= v < n,
    ensures
        depth(edges, v, n) < level_count(edges, n),
{
    lemma_max_depth_lower(edges, n, n, v);
}

} // verus!
