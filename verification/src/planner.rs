//! DAG topological sort and wave extraction.
//!
//! [`build_execution_plan`] turns a [`Pipeline`] into an
//! [`ExecutionPlan`]: a sequence of waves where the targets of a wave are
//! independent and may run in parallel, while waves run one after the
//! other. The dependency graph lives in `petgraph`; cycles are detected
//! there, and waves are extracted with Kahn's algorithm, grouped by
//! level. A second, greedy pass splits a wave whenever its targets
//! declare a `conflicts` relation or contend for the same resource with
//! exclusive access.

use vstd::prelude::*;
use crate::dag::{edges_in_range, cnt_in, cnt_pair, seq_count, num_nonzero, lemma_cnt_in_update, lemma_cnt_in_bound, lemma_cnt_in_witness, lemma_seq_count_out_neighbors, lemma_out_neighbors_edge, lemma_seq_count_skip, lemma_num_nonzero_update, lemma_num_nonzero_bound, lemma_num_nonzero_zeros, lemma_num_nonzero_full, all_stuck, lemma_stuck_nodes_cycle, level_facts, lemma_depth_levels, depth, level_group, level_count, level_waves, round_group_upto, lemma_groups_match, lemma_round_group_stable, lemma_round_group_members, lemma_level_count, lemma_level_group_members};
use crate::plan_laws::increasing;
use crate::error::{KilnError, KilnErrorKind};
use crate::split::{split_all, index_waves, split_conflicting_waves};
use crate::target::{Pipeline, Target, TargetId, TargetMap, ids_view, key_index, has_key, lemma_key_index};
use crate::validator::{all_refs_known, refs_known, unknown_reference, is_unknown_reference_error, check_references, lemma_first_bad_target, lemma_first_unknown};
use crate::graph::{
    DepGraph, dep_graph_nodes, dep_graph_edges, dep_graph_edge_count, dep_graph_edge_endpoints,
    dep_graph_neighbors, dep_graph_new, dep_graph_add_node, dep_graph_add_edge, dep_graph_is_cyclic,
    dep_graph_node_weight, out_neighbors, has_cycle, is_edge, is_walk,
};

verus! {

/// All zero: no node finished yet.
pub open spec fn zeros(n: nat) -> Seq<usize> {
    Seq::new(n, |i: int| 0usize)
}

/// The in-degree of every node.
fn in_degrees(g: &DepGraph, n: usize) -> (r: Vec<usize>)
    requires
        dep_graph_nodes(*g).len() == n,
        edges_in_range(dep_graph_edges(*g), n as int),
        dep_graph_edges(*g).len() < u32::MAX,
    ensures
        r@.len() == n,
        forall|v: int| 0 <= v < n ==> #[trigger] r@[v] == cnt_in(dep_graph_edges(*g), v, zeros(n as nat)),
{
    let ghost edges = dep_graph_edges(*g);
    let ghost z = zeros(n as nat);
    let mut indeg: Vec<usize> = Vec::new();
    let mut i: usize = 0;
    while i < n
        invariant
            i <= n,
            indeg@.len() == i,
            forall|v: int| 0 <= v < i ==> #[trigger] indeg@[v] == 0,
        decreases n - i,
    {
        indeg.push(0);
        i = i + 1;
    }
    let m = dep_graph_edge_count(g);
    let mut e: usize = 0;
    while e < m
        invariant
            m == edges.len(),
            edges == dep_graph_edges(*g),
            edges.len() < u32::MAX,
            edges_in_range(edges, n as int),
            z == zeros(n as nat),
            e <= m,
            indeg@.len() == n,
            forall|v: int| 0 <= v < n ==> #[trigger] indeg@[v] == cnt_in(edges.take(e as int), v, z),
        decreases m - e,
    {
        let p = dep_graph_edge_endpoints(g, e);
        if let Some((a, b)) = p {
            proof {
                assert(edges.take(e + 1).drop_last() =~= edges.take(e as int));
                assert(edges.take(e + 1).last() == edges[e as int]);
                assert(0 <= edges[e as int].0 < n && 0 <= edges[e as int].1 < n);
                lemma_cnt_in_bound(edges.take(e as int), b as int, z);
                assert(z[a as int] == 0);
            }
            let d = indeg[b];
            indeg.set(b, d + 1);
            proof {
                assert forall|v: int| 0 <= v < n implies #[trigger] indeg@[v] == cnt_in(
                    edges.take(e + 1),
                    v,
                    z,
                ) by {
                    assert(cnt_in(edges.take(e + 1), v, z) == cnt_in(edges.take(e as int), v, z) + (if edges[e as int].1 == v && z[edges[e as int].0] == 0 {
                        1nat
                    } else {
                        0nat
                    }));
                }
            }
        }
        e = e + 1;
    }
    proof {
        assert(edges.take(m as int) =~= edges);
    }
    indeg
}

/// The nodes in round `c`, in increasing order.
fn collect_round(rounds: &Vec<usize>, c: usize) -> (r: Vec<usize>)
    ensures
        r@ == round_group_upto(rounds@, c, rounds@.len()),
{
    let mut wave: Vec<usize> = Vec::new();
    let mut v: usize = 0;
    while v < rounds.len()
        invariant
            v <= rounds@.len(),
            wave@ == round_group_upto(rounds@, c, v as nat),
        decreases rounds@.len() - v,
    {
        if rounds[v] == c {
            wave.push(v);
        }
        v = v + 1;
    }
    wave
}

/// Node `x` has an incoming edge from a node in round `c`.
pub open spec fn has_pred_in_round(edges: Seq<(int, int)>, r: Seq<usize>, x: int, c: int) -> bool {
    exists|e: int| 0 <= e < edges.len() && (#[trigger] edges[e]).1 == x && r[edges[e].0] == c
}

/// Every node of `s` has an incoming edge from a node in round `c`.
pub open spec fn all_have_pred(edges: Seq<(int, int)>, r: Seq<usize>, s: Seq<usize>, c: int) -> bool {
    forall|i: int| 0 <= i < s.len() ==> has_pred_in_round(edges, r, #[trigger] s[i] as int, c)
}

/// Whether `s` holds exactly the nodes below `n` that satisfy `p`, each once.
pub open spec fn exactly(s: Seq<usize>, n: nat, p: spec_fn(int) -> bool) -> bool {
    &&& forall|i: int| 0 <= i < s.len() ==> #[trigger] s[i] < n
    &&& s.no_duplicates()
    &&& forall|v: int| 0 <= v < n ==> (#[trigger] s.contains(v as usize) <==> p(v))
}

/// Removes the edges of the just-finished node `u` from the in-degree
/// counts, queueing each node whose count drops to zero.
fn relax(
    g: &DepGraph,
    u: usize,
    indeg: &mut Vec<usize>,
    next: &mut Vec<usize>,
    rounds: &Vec<usize>,
    cur: &Vec<usize>,
    Ghost(k): Ghost<usize>,
)
    requires
        ({
            let edges = dep_graph_edges(*g);
            let n = rounds@.len();
            &&& dep_graph_nodes(*g).len() == n
            &&& edges_in_range(edges, n as int)
            &&& u < n
            &&& old(indeg)@.len() == n
            &&& forall|v: int|
                0 <= v < n ==> #[trigger] old(indeg)@[v] == cnt_in(edges, v, rounds@) + cnt_pair(
                    edges,
                    u as int,
                    v,
                )
            &&& exactly(
                old(next)@,
                n,
                |v: int| rounds@[v] == 0 && !cur@.contains(v as usize) && old(indeg)@[v] == 0,
            )
            &&& all_have_pred(edges, rounds@, old(next)@, k + 1)
            &&& rounds@[u as int] == k + 1
            &&& forall|e: int|
                0 <= e < edges.len() && (#[trigger] edges[e]).0 == u ==> rounds@[edges[e].1] == 0
                    && !cur@.contains(edges[e].1 as usize)
        }),
    ensures
        ({
            let edges = dep_graph_edges(*g);
            let n = rounds@.len();
            &&& final(indeg)@.len() == n
            &&& forall|v: int| 0 <= v < n ==> #[trigger] final(indeg)@[v] == cnt_in(edges, v, rounds@)
            &&& exactly(
                final(next)@,
                n,
                |v: int| rounds@[v] == 0 && !cur@.contains(v as usize) && final(indeg)@[v] == 0,
            )
            &&& all_have_pred(edges, rounds@, final(next)@, k + 1)
        }),
{
    let ghost edges = dep_graph_edges(*g);
    let ghost n = rounds@.len();
    let ghost nbs = out_neighbors(edges, u as int);
    let nb = dep_graph_neighbors(g, u);
    let rl = rounds.len();
    assert(rl == n);
    proof {
        assert forall|v: int| 0 <= v < n implies #[trigger] indeg@[v] == cnt_in(edges, v, rounds@)
            + seq_count(nbs.skip(0), v) by {
            assert(nbs.skip(0) =~= nbs);
            lemma_seq_count_out_neighbors(edges, u as int, v);
        }
    }
    let mut t: usize = 0;
    while t < nb.len()
        invariant
            edges == dep_graph_edges(*g),
            n == rounds@.len(),
            n <= usize::MAX,
            dep_graph_nodes(*g).len() == n,
            edges_in_range(edges, n as int),
            u < n,
            rounds@[u as int] == k + 1,
            nbs == out_neighbors(edges, u as int),
            nb@.len() == nbs.len(),
            forall|i: int| 0 <= i < nb@.len() ==> #[trigger] nb@[i] as int == nbs[i],
            t <= nb@.len(),
            indeg@.len() == n,
            forall|v: int|
                0 <= v < n ==> #[trigger] indeg@[v] == cnt_in(edges, v, rounds@) + seq_count(
                    nbs.skip(t as int),
                    v,
                ),
            exactly(next@, n, |v: int| rounds@[v] == 0 && !cur@.contains(v as usize) && indeg@[v] == 0),
            all_have_pred(edges, rounds@, next@, k + 1),
            forall|e: int|
                0 <= e < edges.len() && (#[trigger] edges[e]).0 == u ==> rounds@[edges[e].1] == 0
                    && !cur@.contains(edges[e].1 as usize),
        decreases nb@.len() - t,
    {
        let w = nb[t];
        let ghost next0 = next@;
        let ghost indeg0 = indeg@;
        proof {
            lemma_out_neighbors_edge(edges, u as int, t as int);
            let e = choose|e: int| 0 <= e < edges.len() && #[trigger] edges[e] == (u as int, nbs[t as int]);
            assert(edges[e].0 == u);
            assert(0 <= w < n);
            lemma_seq_count_skip(nbs, t as int, w as int);
        }
        let d = indeg[w];
        indeg.set(w, d - 1);
        if d - 1 == 0 {
            proof {
                let e = choose|e: int| 0 <= e < edges.len() && #[trigger] edges[e] == (u as int, nbs[t as int]);
                assert(rounds@[w as int] == 0 && !cur@.contains(w));
                assert(!next@.contains(w));
            }
            next.push(w);
            proof {
                let ghost prev = next@.drop_last();
                assert forall|i: int| 0 <= i < next@.len() implies has_pred_in_round(
                    edges,
                    rounds@,
                    #[trigger] next@[i] as int,
                    k + 1,
                ) by {
                    if i == next@.len() - 1 {
                        let e = choose|e: int| 0 <= e < edges.len() && #[trigger] edges[e] == (u as int, nbs[t as int]);
                        assert(edges[e].1 == next@[i] as int);
                    } else {
                        assert(next@[i] == prev[i]);
                    }
                }
            }
        }
        proof {
            assert(!next0.contains(w)) by {
                assert(indeg0[w as int] >= 1);
            }
            assert forall|i: int| 0 <= i < next@.len() implies #[trigger] next@[i] < n by {
                if i < next0.len() {
                    assert(next@[i] == next0[i]);
                }
            }
            assert(next@.no_duplicates()) by {
                if next@.len() > next0.len() {
                    assert(next@ == next0.push(w));
                    assert forall|i: int, j: int| 0 <= i < j < next@.len() implies next@[i] != next@[j] by {
                        if j == next@.len() - 1 {
                            assert(next@[i] == next0[i]);
                        } else {
                            assert(next@[i] == next0[i] && next@[j] == next0[j]);
                        }
                    }
                } else {
                    assert(next@ == next0);
                }
            }
            assert forall|v: int| 0 <= v < n implies (#[trigger] next@.contains(v as usize) <==> (
            rounds@[v] == 0 && !cur@.contains(v as usize) && indeg@[v] == 0)) by {
                if next@.len() > next0.len() {
                    assert(next@ == next0.push(w));
                    if next@.contains(v as usize) && v != w {
                        let i = choose|i: int| 0 <= i < next@.len() && next@[i] == v as usize;
                        if i == next@.len() - 1 {
                            assert(next@[i] == w);
                            assert(v == w as int);
                        }
                        assert(i < next0.len());
                        assert(next0[i] == v as usize);
                        assert(next0.contains(v as usize));
                    }
                    if v != w && next0.contains(v as usize) {
                        let i = choose|i: int| 0 <= i < next0.len() && next0[i] == v as usize;
                        assert(next@[i] == v as usize);
                    }
                    if v == w {
                        assert(next@[next@.len() - 1] == w);
                    }
                } else {
                    assert(next@ == next0);
                }
            }
            assert forall|v: int| 0 <= v < n implies #[trigger] indeg@[v] == cnt_in(edges, v, rounds@)
                + seq_count(nbs.skip(t + 1), v) by {
                lemma_seq_count_skip(nbs, t as int, v);
            }
        }
        t = t + 1;
    }
    proof {
        assert forall|v: int| 0 <= v < n implies #[trigger] indeg@[v] == cnt_in(edges, v, rounds@) by {
            assert(nbs.skip(nb@.len() as int).len() == 0);
        }
    }
}

} // verus!

verus! {

/// Kahn's algorithm with level grouping: repeatedly takes every node
/// whose remaining in-degree is zero, finishes them as one wave, and
/// removes their outgoing edges. Waves come out in increasing node order.
fn kahn_waves(g: &DepGraph, n: usize) -> (waves: Vec<Vec<usize>>)
    requires
        dep_graph_nodes(*g).len() == n,
        edges_in_range(dep_graph_edges(*g), n as int),
        !has_cycle(dep_graph_edges(*g)),
        dep_graph_edges(*g).len() < u32::MAX,
        n < u32::MAX,
    ensures
        waves@.len() == level_count(dep_graph_edges(*g), n as nat),
        forall|k: int|
            0 <= k < waves@.len() ==> #[trigger] waves@[k]@ == level_group(
                dep_graph_edges(*g),
                n as nat,
                k as nat,
            ),
{
    let ghost edges = dep_graph_edges(*g);
    let mut indeg = in_degrees(g, n);
    let mut rounds: Vec<usize> = Vec::new();
    let mut i: usize = 0;
    while i < n
        invariant
            i <= n,
            rounds@.len() == i,
            forall|v: int| 0 <= v < i ==> #[trigger] rounds@[v] == 0,
        decreases n - i,
    {
        rounds.push(0);
        i = i + 1;
    }
    proof {
        assert(rounds@ =~= zeros(n as nat));
    }
    let mut cur: Vec<usize> = Vec::new();
    let mut v: usize = 0;
    while v < n
        invariant
            v <= n,
            indeg@.len() == n,
            rounds@.len() == n,
            forall|i: int| 0 <= i < cur@.len() ==> #[trigger] cur@[i] < v,
            forall|i: int, j: int| 0 <= i < j < cur@.len() ==> #[trigger] cur@[i] < #[trigger] cur@[j],
            forall|x: int|
                0 <= x < v ==> (#[trigger] cur@.contains(x as usize) <==> indeg@[x] == 0),
        decreases n - v,
    {
        if indeg[v] == 0 {
            let ghost c0 = cur@;
            cur.push(v);
            proof {
                assert forall|x: int| 0 <= x < v + 1 implies (#[trigger] cur@.contains(x as usize)
                    <==> indeg@[x] == 0) by {
                    if x < v {
                        if cur@.contains(x as usize) {
                            let i = choose|i: int| 0 <= i < cur@.len() && cur@[i] == x as usize;
                            if i < c0.len() {
                                assert(c0[i] == x as usize);
                            }
                        }
                        if c0.contains(x as usize) {
                            let i = choose|i: int| 0 <= i < c0.len() && c0[i] == x as usize;
                            assert(cur@[i] == x as usize);
                        }
                    } else {
                        assert(cur@[cur@.len() - 1] == v);
                    }
                }
            }
        } else {
            proof {
                assert forall|x: int| 0 <= x < v + 1 implies (#[trigger] cur@.contains(x as usize)
                    <==> indeg@[x] == 0) by {
                    if x == v && cur@.contains(x as usize) {
                        let i = choose|i: int| 0 <= i < cur@.len() && cur@[i] == x as usize;
                    }
                }
            }
        }
        v = v + 1;
    }
    proof {
        assert(cur@.no_duplicates()) by {
            assert forall|i: int, j: int| 0 <= i < cur@.len() && 0 <= j < cur@.len() && i != j implies cur@[i] != cur@[j] by {
                if i < j {
                    assert(cur@[i] < cur@[j]);
                } else {
                    assert(cur@[j] < cur@[i]);
                }
            }
        }
        assert forall|e: int| 0 <= e < edges.len() && rounds@[(#[trigger] edges[e]).1] != 0 implies false by {}
        lemma_num_nonzero_zeros(n as nat);
    }
    let mut waves: Vec<Vec<usize>> = Vec::new();
    let mut k: usize = 0;
    let mut done: usize = 0;
    while cur.len() > 0
        invariant
            edges == dep_graph_edges(*g),
            dep_graph_nodes(*g).len() == n,
            edges_in_range(edges, n as int),
            !has_cycle(edges),
            edges.len() < u32::MAX,
            n < u32::MAX,
            rounds@.len() == n,
            indeg@.len() == n,
            forall|v: int| 0 <= v < n ==> #[trigger] rounds@[v] <= k,
            forall|v: int| 0 <= v < n ==> #[trigger] indeg@[v] == cnt_in(edges, v, rounds@),
            exactly(cur@, n as nat, |v: int| rounds@[v] == 0 && indeg@[v] == 0),
            forall|e: int|
                0 <= e < edges.len() && rounds@[(#[trigger] edges[e]).1] != 0 ==> rounds@[edges[e].0]
                    != 0 && rounds@[edges[e].0] < rounds@[edges[e].1],
            forall|v: int|
                0 <= v < n && #[trigger] rounds@[v] > 1 ==> has_pred_in_round(
                    edges,
                    rounds@,
                    v,
                    rounds@[v] - 1,
                ),
            k > 0 ==> all_have_pred(edges, rounds@, cur@, k as int),
            waves@.len() == k,
            forall|j: int|
                0 <= j < k ==> #[trigger] waves@[j]@ == round_group_upto(
                    rounds@,
                    (j + 1) as usize,
                    n as nat,
                ),
            k > 0 ==> exists|v: int| 0 <= v < n && #[trigger] rounds@[v] == k,
            done == num_nonzero(rounds@),
            k <= done <= n,
        decreases n - done,
    {
        let ghost r0 = rounds@;
        proof {
            // a node of the frontier is still unfinished, so not all are done
            assert(cur@.contains(cur@[0]));
            assert(r0[cur@[0] as int] == 0);
            if done == n {
                lemma_num_nonzero_full(r0, cur@[0] as int);
            }
            assert forall|e: int| 0 <= e < edges.len() && cur@.contains(
                (#[trigger] edges[e]).1 as usize,
            ) implies r0[edges[e].0] != 0 by {
                let x = edges[e].1;
                assert(indeg@[x] == 0);
                lemma_cnt_in_witness(edges, x, r0);
            }
        }
        let mut next: Vec<usize> = Vec::new();
        let mut j: usize = 0;
        let ghost done0 = done;
        while j < cur.len()
            invariant
                done == done0 + j,
                k <= done0,
                edges == dep_graph_edges(*g),
                dep_graph_nodes(*g).len() == n,
                edges_in_range(edges, n as int),
                !has_cycle(edges),
                n < u32::MAX,
                k < n,
                r0.len() == n,
                rounds@.len() == n,
                indeg@.len() == n,
                j <= cur@.len(),
                forall|i: int| 0 <= i < cur@.len() ==> #[trigger] cur@[i] < n && r0[cur@[i] as int] == 0,
                cur@.no_duplicates(),
                forall|v: int|
                    0 <= v < n ==> #[trigger] rounds@[v] == (if cur@.take(j as int).contains(v as usize) {
                        (k + 1) as usize
                    } else {
                        r0[v]
                    }),
                forall|v: int| 0 <= v < n ==> #[trigger] r0[v] <= k,
                forall|v: int| 0 <= v < n ==> #[trigger] indeg@[v] == cnt_in(edges, v, rounds@),
                exactly(
                    next@,
                    n as nat,
                    |v: int| rounds@[v] == 0 && !cur@.contains(v as usize) && indeg@[v] == 0,
                ),
                all_have_pred(edges, rounds@, next@, k + 1),
                forall|e: int|
                    0 <= e < edges.len() && cur@.contains((#[trigger] edges[e]).1 as usize) ==> r0[edges[e].0]
                        != 0,
                k > 0 ==> all_have_pred(edges, r0, cur@, k as int),
                forall|e: int|
                    0 <= e < edges.len() && rounds@[(#[trigger] edges[e]).1] != 0 ==> rounds@[edges[e].0]
                        != 0 && rounds@[edges[e].0] < rounds@[edges[e].1],
                forall|v: int|
                    0 <= v < n && #[trigger] rounds@[v] > 1 ==> has_pred_in_round(
                        edges,
                        rounds@,
                        v,
                        rounds@[v] - 1,
                    ),
                done == num_nonzero(rounds@),
                done <= n,
            decreases cur@.len() - j,
        {
            let u = cur[j];
            proof {
                assert(!cur@.take(j as int).contains(u)) by {
                    if cur@.take(j as int).contains(u) {
                        let i = choose|i: int| 0 <= i < j && cur@.take(j as int)[i] == u;
                        assert(cur@[i] == cur@[j as int]);
                    }
                }
                assert(rounds@[u as int] == 0);
                assert forall|e: int| 0 <= e < edges.len() && (#[trigger] edges[e]).0 == u implies rounds@[edges[e].1]
                    == 0 && !cur@.contains(edges[e].1 as usize) by {
                    if cur@.contains(edges[e].1 as usize) {
                        assert(r0[edges[e].0] != 0);
                    }
                }
                if done == n {
                    lemma_num_nonzero_full(rounds@, u as int);
                }
            }
            let ghost rb = rounds@;
            rounds.set(u, k + 1);
            proof {
                let tj1 = cur@.take(j + 1);
                let tj = cur@.take(j as int);
                lemma_num_nonzero_update(rb, u as int, (k + 1) as usize);
                assert forall|v: int| 0 <= v < n implies #[trigger] indeg@[v] == cnt_in(edges, v, rounds@)
                    + cnt_pair(edges, u as int, v) by {
                    lemma_cnt_in_update(edges, v, rb, u as int, (k + 1) as usize);
                }
                assert(exactly(
                    next@,
                    n as nat,
                    |v: int| rounds@[v] == 0 && !cur@.contains(v as usize) && indeg@[v] == 0,
                )) by {
                    assert forall|v: int| 0 <= v < n implies (#[trigger] next@.contains(v as usize) <==> (
                    rounds@[v] == 0 && !cur@.contains(v as usize) && indeg@[v] == 0)) by {
                        if v == u {
                            assert(cur@.contains(u));
                        } else {
                            assert(rounds@[v] == rb[v]);
                        }
                    }
                }
                assert forall|i: int| 0 <= i < next@.len() implies has_pred_in_round(
                    edges,
                    rounds@,
                    #[trigger] next@[i] as int,
                    k + 1,
                ) by {
                    assert(has_pred_in_round(edges, rb, next@[i] as int, k + 1));
                    let e = choose|e: int|
                        0 <= e < edges.len() && (#[trigger] edges[e]).1 == next@[i] as int && rb[edges[e].0]
                            == k + 1;
                    assert(edges[e].0 != u);
                }
                assert forall|v: int| 0 <= v < n implies #[trigger] rounds@[v] == (if tj1.contains(v as usize) {
                    (k + 1) as usize
                } else {
                    r0[v]
                }) by {
                    if tj1.contains(v as usize) && v != u {
                        let i = choose|i: int| 0 <= i < j + 1 && tj1[i] == v as usize;
                        if i == j {
                            assert(cur@[i] == u);
                        }
                        assert(tj[i] == v as usize);
                    }
                    if tj.contains(v as usize) {
                        let i = choose|i: int| 0 <= i < j && tj[i] == v as usize;
                        assert(tj1[i] == v as usize);
                    }
                    if v == u {
                        assert(tj1[j as int] == u);
                    }
                }
                assert forall|e: int|
                    0 <= e < edges.len() && rounds@[(#[trigger] edges[e]).1] != 0 implies rounds@[edges[e].0]
                        != 0 && rounds@[edges[e].0] < rounds@[edges[e].1] by {
                    if edges[e].1 == u {
                        assert(cur@.contains(u));
                        assert(r0[edges[e].0] != 0);
                        assert(!tj1.contains(edges[e].0 as usize)) by {
                            if tj1.contains(edges[e].0 as usize) {
                                let i = choose|i: int| 0 <= i < j + 1 && tj1[i] == edges[e].0 as usize;
                                assert(cur@[i] == edges[e].0 as usize);
                            }
                        }
                    } else if edges[e].0 == u {
                        assert(rb[edges[e].1] == 0);
                    } else {
                    }
                }
                assert forall|v: int|
                    0 <= v < n && #[trigger] rounds@[v] > 1 implies has_pred_in_round(
                        edges,
                        rounds@,
                        v,
                        rounds@[v] - 1,
                    ) by {
                    if v == u {
                        assert(cur@.contains(u));
                        let i = choose|i: int| 0 <= i < cur@.len() && cur@[i] == u;
                        assert(has_pred_in_round(edges, r0, cur@[i] as int, k as int));
                        let e = choose|e: int|
                            0 <= e < edges.len() && (#[trigger] edges[e]).1 == u as int && r0[edges[e].0] == k;
                        assert(!tj1.contains(edges[e].0 as usize)) by {
                            if tj1.contains(edges[e].0 as usize) {
                                let i2 = choose|i2: int| 0 <= i2 < j + 1 && tj1[i2] == edges[e].0 as usize;
                                assert(cur@[i2] == edges[e].0 as usize);
                            }
                        }
                        assert(rounds@[edges[e].0] == k);
                    } else {
                        assert(rb[v] == rounds@[v]);
                        let e = choose|e: int|
                            0 <= e < edges.len() && (#[trigger] edges[e]).1 == v && rb[edges[e].0] == rb[v] - 1;
                        assert(edges[e].0 != u);
                    }
                }
            }
            done = done + 1;
            relax(g, u, &mut indeg, &mut next, &rounds, &cur, Ghost(k));
            j = j + 1;
        }
        proof {
            assert(cur@.take(cur@.len() as int) =~= cur@);
        }
        let wave = collect_round(&rounds, k + 1);
        proof {
            assert forall|jj: int| 0 <= jj < k implies #[trigger] waves@[jj]@ == round_group_upto(
                rounds@,
                (jj + 1) as usize,
                n as nat,
            ) by {
                assert forall|v: int| 0 <= v < n implies (r0[v] == (jj + 1) as usize) == (rounds@[v] == (jj
                    + 1) as usize) by {}
                lemma_round_group_stable(r0, rounds@, (jj + 1) as usize, n as nat);
            }
        }
        waves.push(wave);
        proof {
            assert(exactly(next@, n as nat, |v: int| rounds@[v] == 0 && indeg@[v] == 0)) by {
                assert forall|v: int| 0 <= v < n implies (#[trigger] next@.contains(v as usize) <==> (
                rounds@[v] == 0 && indeg@[v] == 0)) by {
                    if cur@.contains(v as usize) {
                        let i = choose|i: int| 0 <= i < cur@.len() && cur@[i] == v as usize;
                        assert(cur@.take(cur@.len() as int).contains(v as usize));
                    }
                }
            }
            assert(rounds@[cur@[0] as int] == k + 1) by {
                assert(cur@.take(cur@.len() as int).contains(cur@[0]));
            }
            assert forall|jj: int| 0 <= jj < k + 1 implies #[trigger] waves@[jj]@ == round_group_upto(
                rounds@,
                (jj + 1) as usize,
                n as nat,
            ) by {}
        }
        cur = next;
        k = k + 1;
    }
    proof {
        // every node is finished: otherwise the unfinished ones would form a cycle
        assert forall|x: int| 0 <= x < n implies #[trigger] rounds@[x] != 0 by {
            if rounds@[x] == 0 {
                assert(all_stuck(edges, rounds@)) by {
                    reveal(all_stuck);
                    assert forall|y: int| 0 <= y < rounds@.len() && rounds@[y] == 0 implies exists|e: int|
                        0 <= e < edges.len() && (#[trigger] edges[e]).1 == y && rounds@[edges[e].0] == 0 by {
                        assert(!cur@.contains(y as usize));
                        lemma_cnt_in_witness(edges, y, rounds@);
                    }
                }
                lemma_stuck_nodes_cycle(edges, rounds@, x);
            }
        }
        assert(level_facts(edges, rounds@));
        lemma_depth_levels(edges, rounds@, n as nat);
        assert forall|v: int| 0 <= v < n implies #[trigger] depth(edges, v, n as nat) == rounds@[v] - 1 by {
            assert(rounds@[v] <= k);
        }
        assert forall|jj: int| 0 <= jj < waves@.len() implies #[trigger] waves@[jj]@ == level_group(
            edges,
            n as nat,
            jj as nat,
        ) by {
            lemma_groups_match(edges, n as nat, rounds@, jj as nat, n as nat);
        }
        if n > 0 {
            assert(rounds@[0] >= 1);
            let top = choose|v: int| 0 <= v < n && #[trigger] rounds@[v] == k;
            lemma_level_count(edges, n as nat, rounds@, k as nat, top);
        }
    }
    waves
}

} // verus!

verus! {

/// The dependency edges of the target at position `i`: one edge from each
/// target it requires to it.
pub open spec fn req_edges(s: Seq<(TargetId, Target)>, i: int) -> Seq<(int, int)> {
    s[i].1.requires@.map_values(|r: TargetId| (key_index(s, r@), i))
}

/// The dependency edges of the first `m` targets, target by target.
pub open spec fn dep_edges_upto(s: Seq<(TargetId, Target)>, m: nat) -> Seq<(int, int)>
    decreases m,
{
    if m == 0 {
        seq![]
    } else {
        dep_edges_upto(s, (m - 1) as nat) + req_edges(s, m - 1)
    }
}

/// The dependency graph of a target map, in the order the planner adds
/// its edges: an edge `(b, a)` when the target at position `a` requires
/// the one at position `b`.
pub open spec fn dep_edges(s: Seq<(TargetId, Target)>) -> Seq<(int, int)> {
    dep_edges_upto(s, s.len())
}

/// The waves of the plan as target positions: the dependency levels of
/// the targets, each level split by [`split_all`].
pub open spec fn plan_indices(s: Seq<(TargetId, Target)>) -> Seq<Seq<usize>> {
    split_all(s, level_waves(dep_edges(s), s.len()))
}

/// Waves of target positions as waves of target ids.
pub open spec fn ids_of(s: Seq<(TargetId, Target)>, waves: Seq<Seq<usize>>) -> Seq<Seq<Seq<char>>> {
    waves.map_values(|w: Seq<usize>| w.map_values(|v: usize| s[v as int].0@))
}

/// The plan of a target map whose references are all known and whose
/// dependency graph has no cycle.
pub open spec fn plan_view(s: Seq<(TargetId, Target)>) -> Seq<Seq<Seq<char>>> {
    ids_of(s, plan_indices(s))
}

proof fn lemma_dep_edges_len_mono(s: Seq<(TargetId, Target)>, a: nat, b: nat)
    requires
        a <= b,
    ensures
        dep_edges_upto(s, a).len() <= dep_edges_upto(s, b).len(),
    decreases b - a,
{
    if b > a {
        lemma_dep_edges_len_mono(s, a, (b - 1) as nat);
    }
}

/// When every reference is known, the dependency edges join positions of
/// the map.
pub proof fn lemma_dep_edges_in_range(s: Seq<(TargetId, Target)>, m: nat)
    requires
        m <= s.len(),
        all_refs_known(s),
    ensures
        edges_in_range(dep_edges_upto(s, m), s.len() as int),
    decreases m,
{
    if m > 0 {
        lemma_dep_edges_in_range(s, (m - 1) as nat);
        let p = dep_edges_upto(s, (m - 1) as nat);
        let q = req_edges(s, m - 1);
        let reqs = s[m - 1].1.requires@;
        lemma_first_bad_target(s, s.len());
        lemma_first_unknown(s, reqs, reqs.len());
        assert forall|e: int| 0 <= e < p.len() + q.len() implies 0 <= (#[trigger] (p + q)[e]).0 < s.len()
            && 0 <= (p + q)[e].1 < s.len() by {
            if e >= p.len() {
                let j = e - p.len();
                assert((p + q)[e] == q[j]);
                assert(has_key(s, reqs[j]@));
                lemma_key_index(s, reqs[j]@);
            } else {
                assert((p + q)[e] == p[e]);
            }
        }
    }
}

/// Builds the dependency graph: one node per target, weighted by its
/// position in id order, and an edge `b -> a` for each target `b` that
/// target `a` requires.
fn build_dep_graph(targets: &TargetMap) -> (g: DepGraph)
    requires
        all_refs_known(targets@),
        targets@.len() < u32::MAX,
        dep_edges(targets@).len() < u32::MAX,
    ensures
        dep_graph_nodes(g).len() == targets@.len(),
        forall|i: int| 0 <= i < targets@.len() ==> #[trigger] dep_graph_nodes(g)[i] == i,
        dep_graph_edges(g) == dep_edges(targets@),
{
    let ghost s = targets@;
    let entries = targets.as_slice();
    let n = entries.len();
    let mut g = dep_graph_new();
    let mut i: usize = 0;
    while i < n
        invariant
            n == s.len(),
            n < u32::MAX,
            i <= n,
            dep_graph_nodes(g).len() == i,
            forall|k: int| 0 <= k < i ==> #[trigger] dep_graph_nodes(g)[k] == k,
            dep_graph_edges(g) == Seq::<(int, int)>::empty(),
        decreases n - i,
    {
        dep_graph_add_node(&mut g, i);
        i = i + 1;
    }
    proof {
        lemma_first_bad_target(s, s.len());
    }
    let mut a: usize = 0;
    while a < n
        invariant
            entries@ == s,
            s == targets@,
            n == s.len(),
            a <= n,
            all_refs_known(s),
            forall|j: int| 0 <= j < s.len() ==> refs_known(s, #[trigger] s[j].1),
            dep_edges(s).len() < u32::MAX,
            dep_graph_nodes(g).len() == n,
            forall|k: int| 0 <= k < n ==> #[trigger] dep_graph_nodes(g)[k] == k,
            dep_graph_edges(g) == dep_edges_upto(s, a as nat),
        decreases n - a,
    {
        let reqs = &entries[a].1.requires;
        let ghost before = dep_edges_upto(s, a as nat);
        proof {
            lemma_dep_edges_len_mono(s, (a + 1) as nat, s.len());
            lemma_first_unknown(s, reqs@, reqs@.len());
            assert(refs_known(s, s[a as int].1));
        }
        let mut j: usize = 0;
        while j < reqs.len()
            invariant
                entries@ == s,
                s == targets@,
                n == s.len(),
                a < n,
                j <= reqs@.len(),
                reqs@ == s[a as int].1.requires@,
                forall|k: int| 0 <= k < reqs@.len() ==> has_key(s, #[trigger] reqs@[k]@),
                before == dep_edges_upto(s, a as nat),
                before.len() + reqs@.len() < u32::MAX,
                dep_graph_nodes(g).len() == n,
                forall|k: int| 0 <= k < n ==> #[trigger] dep_graph_nodes(g)[k] == k,
                dep_graph_edges(g) == before + req_edges(s, a as int).take(j as int),
            decreases reqs@.len() - j,
        {
            let p = targets.position(&reqs[j]);
            proof {
                assert(has_key(s, reqs@[j as int]@));
                lemma_key_index(s, reqs@[j as int]@);
            }
            if let Some(b) = p {
                dep_graph_add_edge(&mut g, b, a);
                proof {
                    assert(req_edges(s, a as int).take(j + 1) =~= req_edges(s, a as int).take(
                        j as int,
                    ).push((b as int, a as int)));
                    assert(dep_graph_edges(g) =~= before + req_edges(s, a as int).take(j + 1));
                }
            }
            j = j + 1;
        }
        proof {
            assert(req_edges(s, a as int).take(reqs@.len() as int) =~= req_edges(s, a as int));
        }
        a = a + 1;
    }
    g
}

/// An empty edge list has no cycle.
proof fn lemma_no_edges_no_cycle(edges: Seq<(int, int)>)
    requires
        edges.len() == 0,
    ensures
        !has_cycle(edges),
{
    if has_cycle(edges) {
        let w = choose|w: Seq<int>| #![trigger is_walk(edges, w)] w.len() >= 2 && w[0] == w.last() && is_walk(edges, w);
        assert(is_edge(edges, w[0], w[1]));
    }
}

/// An execution plan: targets grouped into sequential waves.
///
/// Targets within a single wave are independent and may run
/// concurrently. Waves themselves are strictly ordered: all targets in
/// wave *n* must complete before wave *n+1* begins.
#[derive(Debug, Clone, PartialEq, Eq)]
pub struct ExecutionPlan {
    /// Ordered waves of target ids.
    pub waves: Vec<Vec<TargetId>>,
}

impl View for ExecutionPlan {
    type V = Seq<Seq<Seq<char>>>;

    open spec fn view(&self) -> Seq<Seq<Seq<char>>> {
        self.waves@.map_values(|w: Vec<TargetId>| ids_view(w@))
    }
}

/// Builds an [`ExecutionPlan`] from a [`Pipeline`].
///
/// Checks that every reference names a target of the pipeline, builds the
/// dependency graph and rejects it when it has a cycle, then groups the
/// targets by dependency level (Kahn's algorithm) and splits each level
/// so that conflicting targets, and targets contending for an exclusive
/// resource, never share a wave. Within a wave, ids are in sorted order.
///
/// # Errors
///
/// - the unknown-reference error of the first unknown reference (see
///   [`unknown_reference`]);
/// - a cyclic-dependency error when the dependency graph has a cycle.
pub fn build_execution_plan(pipeline: &Pipeline) -> (r: Result<ExecutionPlan, KilnError>)
    requires
        pipeline.targets@.len() < u32::MAX,
        dep_edges(pipeline.targets@).len() < u32::MAX,
    ensures
        unknown_reference(pipeline.targets@) is Some ==> (r matches Err(e)
            && is_unknown_reference_error(e, unknown_reference(pipeline.targets@)->0)),
        unknown_reference(pipeline.targets@) is None && has_cycle(dep_edges(pipeline.targets@)) ==> (
        r matches Err(e) && e.kind() matches KilnErrorKind::CyclicDependency { message }
            && message@ == "cycle detected in target dependency graph"@),
        unknown_reference(pipeline.targets@) is None && !has_cycle(dep_edges(pipeline.targets@)) ==> (
        r matches Ok(p) && p@ == plan_view(pipeline.targets@)),
{
    let ghost s = pipeline.targets@;
    if pipeline.is_empty() {
        proof {
            assert(unknown_reference(s) is None);
            assert(dep_edges(s) =~= Seq::<(int, int)>::empty());
            lemma_no_edges_no_cycle(dep_edges(s));
            assert(level_waves(dep_edges(s), 0) =~= Seq::<Seq<usize>>::empty());
            assert(plan_view(s) =~= Seq::<Seq<Seq<char>>>::empty());
        }
        let plan = ExecutionPlan { waves: Vec::new() };
        proof {
            assert(plan@ =~= Seq::<Seq<Seq<char>>>::empty());
        }
        return Ok(plan);
    }
    match check_references(&pipeline.targets) {
        Err(e) => return Err(e),
        Ok(()) => {},
    }
    let g = build_dep_graph(&pipeline.targets);
    if dep_graph_is_cyclic(&g) {
        return Err(KilnError::cyclic_dependency("cycle detected in target dependency graph"));
    }
    let n = pipeline.len();
    proof {
        lemma_dep_edges_in_range(s, s.len());
    }
    let levels = kahn_waves(&g, n);
    let ghost lw = level_waves(dep_edges(s), n as nat);
    proof {
        assert(index_waves(levels@) =~= lw);
        assert forall|k: int, i: int|
            0 <= k < levels@.len() && 0 <= i < levels@[k]@.len() implies #[trigger] levels@[k]@[i] < s.len() by {
            lemma_level_group_members(dep_edges(s), n as nat, k as nat, n as nat);
        }
        assert forall|k: int| 0 <= k < levels@.len() implies increasing(#[trigger] levels@[k]@) by {
            lemma_level_group_members(dep_edges(s), n as nat, k as nat, n as nat);
            assert(levels@[k]@ == index_waves(levels@)[k]);
            assert(lw[k] == level_group(dep_edges(s), n as nat, k as nat));
        }
    }
    let entries = pipeline.targets.as_slice();
    let split = split_conflicting_waves(entries, levels);
    let ghost pi = index_waves(split@);
    assert(pi == plan_indices(s));
    let mut waves: Vec<Vec<TargetId>> = Vec::new();
    let mut k: usize = 0;
    while k < split.len()
        invariant
            entries@ == s,
            pi == index_waves(split@),
            k <= split@.len(),
            dep_graph_nodes(g).len() == s.len(),
            forall|i: int| 0 <= i < s.len() ==> #[trigger] dep_graph_nodes(g)[i] == i,
            forall|k: int, i: int|
                0 <= k < pi.len() && 0 <= i < pi[k].len() ==> #[trigger] pi[k][i] < s.len(),
            waves@.len() == k,
            forall|j: int| 0 <= j < k ==> #[trigger] ids_view(waves@[j]@) == ids_of(s, pi)[j],
        decreases split@.len() - k,
    {
        let mut wave: Vec<TargetId> = Vec::new();
        let mut i: usize = 0;
        while i < split[k].len()
            invariant
                entries@ == s,
                pi == index_waves(split@),
                k < split@.len(),
                i <= split@[k as int]@.len(),
                dep_graph_nodes(g).len() == s.len(),
                forall|i: int| 0 <= i < s.len() ==> #[trigger] dep_graph_nodes(g)[i] == i,
                forall|k: int, i: int|
                    0 <= k < pi.len() && 0 <= i < pi[k].len() ==> #[trigger] pi[k][i] < s.len(),
                wave@.len() == i,
                forall|j: int| 0 <= j < i ==> (#[trigger] wave@[j])@ == s[pi[k as int][j] as int].0@,
            decreases split@[k as int]@.len() - i,
        {
            let v = split[k][i];
            proof {
                assert(pi[k as int] == split@[k as int]@);
                assert(v == pi[k as int][i as int]);
            }
            let w = dep_graph_node_weight(&g, v);
            wave.push(entries[w].0.clone());
            i = i + 1;
        }
        proof {
            assert(ids_view(wave@) =~= ids_of(s, pi)[k as int]);
        }
        waves.push(wave);
        k = k + 1;
    }
    let plan = ExecutionPlan { waves };
    proof {
        assert(plan@ =~= ids_of(s, pi));
    }
    Ok(plan)
}

} // verus!

verus! {

/// Whether the pipeline's dependency edges (one per `requires` entry)
/// number fewer than `bound`. The planner's graph needs fewer than
/// `u32::MAX` of them.
pub fn dep_edges_below(pipeline: &Pipeline, bound: usize) -> (r: bool)
    ensures
        r == (dep_edges(pipeline.targets@).len() < bound),
{
    let entries = pipeline.targets.as_slice();
    let ghost s = pipeline.targets@;
    if bound == 0 {
        return false;
    }
    let mut total: usize = 0;
    let mut i: usize = 0;
    while i < entries.len()
        invariant
            entries@ == s,
            s == pipeline.targets@,
            i <= s.len(),
            total == dep_edges_upto(s, i as nat).len(),
            total < bound,
        decreases s.len() - i,
    {
        let k = entries[i].1.requires.len();
        proof {
            assert(dep_edges_upto(s, (i + 1) as nat) == dep_edges_upto(s, i as nat) + req_edges(s, i as int));
            assert(req_edges(s, i as int).len() == k);
        }
        if k >= bound - total {
            proof {
                lemma_dep_edges_len_mono(s, (i + 1) as nat, s.len());
            }
            return false;
        }
        total = total + k;
        i = i + 1;
    }
    proof {
        assert(i == s.len());
    }
    true
}

} // verus!
