//! The dependency graph, held in a `petgraph` directed graph.
//!
//! Nodes carry the position of a target in id order; an edge `b -> a`
//! means "`b` must run before `a`". The graph's contents are named by
//! [`dep_graph_nodes`] (node weights by node index) and
//! [`dep_graph_edges`] (edges by edge index); the functions below state
//! what each `petgraph` call does to them.

use petgraph::graph::{EdgeIndex, Graph, NodeIndex};
use petgraph::Directed;
use vstd::prelude::*;

verus! {

/// `petgraph::graph::Graph`, an adjacency-list graph.
#[verifier::external_type_specification]
#[verifier::external_body]
#[verifier::reject_recursive_types(N)]
#[verifier::reject_recursive_types(E)]
#[verifier::reject_recursive_types(Ty)]
#[verifier::reject_recursive_types(Ix)]
pub struct ExGraph<N, E, Ty, Ix>(Graph<N, E, Ty, Ix>);

/// `petgraph::Directed`, the marker of directed graphs.
#[verifier::external_type_specification]
#[verifier::external_body]
pub struct ExDirected(Directed);

/// The dependency graph type.
pub type DepGraph = Graph<usize, (), Directed, u32>;

/// The node weights of a dependency graph, by node index.
pub uninterp spec fn dep_graph_nodes(g: Graph<usize, (), Directed, u32>) -> Seq<usize>;

/// The edges `(source, target)` of a dependency graph, by edge index.
pub uninterp spec fn dep_graph_edges(g: Graph<usize, (), Directed, u32>) -> Seq<(int, int)>;

/// The targets of the edges leaving `a`, most recently added edge first.
pub open spec fn out_neighbors(edges: Seq<(int, int)>, a: int) -> Seq<int>
    decreases edges.len(),
{
    if edges.len() == 0 {
        seq![]
    } else {
        let rest = out_neighbors(edges.drop_last(), a);
        if edges.last().0 == a {
            seq![edges.last().1] + rest
        } else {
            rest
        }
    }
}

/// Whether `(a, b)` is one of the edges.
pub open spec fn is_edge(edges: Seq<(int, int)>, a: int, b: int) -> bool {
    exists|e: int| 0 <= e < edges.len() && #[trigger] edges[e] == (a, b)
}

/// Whether consecutive elements of `w` are joined by edges.
pub open spec fn is_walk(edges: Seq<(int, int)>, w: Seq<int>) -> bool {
    forall|i: int| 0 <= i < w.len() - 1 ==> is_edge(edges, #[trigger] w[i], w[i + 1])
}

/// Whether the graph has a cycle: a walk of at least one edge that
/// returns to where it started.
pub open spec fn has_cycle(edges: Seq<(int, int)>) -> bool {
    exists|w: Seq<int>| #![trigger is_walk(edges, w)] w.len() >= 2 && w[0] == w.last() && is_walk(edges, w)
}

/// Calls `Graph::new`, which makes a graph with no nodes and no edges.
#[verifier::external_body]
pub(crate) fn dep_graph_new() -> (g: DepGraph)
    ensures
        dep_graph_nodes(g) == Seq::<usize>::empty(),
        dep_graph_edges(g) == Seq::<(int, int)>::empty(),
{
    Graph::new()
}

/// Calls `Graph::add_node`, which appends a node with weight `w` and
/// returns its index (the previous node count). It panics when the node
/// count would reach `u32::MAX`, which `requires` rules out.
#[verifier::external_body]
pub(crate) fn dep_graph_add_node(g: &mut DepGraph, w: usize) -> (i: usize)
    requires
        dep_graph_nodes(*old(g)).len() < u32::MAX,
    ensures
        dep_graph_nodes(*final(g)) == dep_graph_nodes(*old(g)).push(w),
        dep_graph_edges(*final(g)) == dep_graph_edges(*old(g)),
        i == dep_graph_nodes(*old(g)).len(),
{
    g.add_node(w).index()
}

/// Calls `Graph::add_edge`, which appends the edge `a -> b`. It panics
/// when a node does not exist or the edge count would reach `u32::MAX`,
/// which `requires` rules out.
#[verifier::external_body]
pub(crate) fn dep_graph_add_edge(g: &mut DepGraph, a: usize, b: usize)
    requires
        a < dep_graph_nodes(*old(g)).len(),
        b < dep_graph_nodes(*old(g)).len(),
        dep_graph_edges(*old(g)).len() < u32::MAX,
    ensures
        dep_graph_nodes(*final(g)) == dep_graph_nodes(*old(g)),
        dep_graph_edges(*final(g)) == dep_graph_edges(*old(g)).push((a as int, b as int)),
{
    g.add_edge(NodeIndex::new(a), NodeIndex::new(b), ());
}

/// Calls `Graph::edge_count`.
#[verifier::external_body]
pub(crate) fn dep_graph_edge_count(g: &DepGraph) -> (r: usize)
    ensures
        r == dep_graph_edges(*g).len(),
{
    g.edge_count()
}

/// Calls `Graph::edge_endpoints`: the source and target of edge `e`, or
/// `None` when there is no such edge.
#[verifier::external_body]
pub(crate) fn dep_graph_edge_endpoints(g: &DepGraph, e: usize) -> (r: Option<(usize, usize)>)
    requires
        e <= u32::MAX,
    ensures
        e < dep_graph_edges(*g).len() ==> r == Some(
            (dep_graph_edges(*g)[e as int].0 as usize, dep_graph_edges(*g)[e as int].1 as usize),
        ),
        e >= dep_graph_edges(*g).len() ==> r is None,
{
    g.edge_endpoints(EdgeIndex::new(e)).map(|(a, b)| (a.index(), b.index()))
}

/// Calls `Graph::neighbors` on node `a` and collects the indices: the
/// targets of the edges leaving `a`, most recently added edge first.
#[verifier::external_body]
pub(crate) fn dep_graph_neighbors(g: &DepGraph, a: usize) -> (r: Vec<usize>)
    requires
        a < dep_graph_nodes(*g).len(),
    ensures
        r@.len() == out_neighbors(dep_graph_edges(*g), a as int).len(),
        forall|i: int|
            0 <= i < r@.len() ==> #[trigger] r@[i] as int == out_neighbors(
                dep_graph_edges(*g),
                a as int,
            )[i],
{
    g.neighbors(NodeIndex::new(a)).map(|n| n.index()).collect()
}

/// Reads the weight of node `a` (`graph[a]`), which panics when the node
/// does not exist.
#[verifier::external_body]
pub(crate) fn dep_graph_node_weight(g: &DepGraph, a: usize) -> (r: usize)
    requires
        a < dep_graph_nodes(*g).len(),
    ensures
        r == dep_graph_nodes(*g)[a as int],
{
    g[NodeIndex::new(a)]
}

/// Calls `petgraph::algo::is_cyclic_directed`: whether the graph contains
/// a cycle.
#[verifier::external_body]
pub(crate) fn dep_graph_is_cyclic(g: &DepGraph) -> (r: bool)
    ensures
        r == has_cycle(dep_graph_edges(*g)),
{
    petgraph::algo::is_cyclic_directed(g)
}

} // verus!
