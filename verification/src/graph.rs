//! The graph the engine works on, held in a petgraph `Graph`.
//!
//! Verified code sees the graph through two spec-level names — its node count
//! and its edge sequence — and a handful of trusted wrappers around the
//! petgraph calls the engine makes. Node identifiers are the dense integers
//! `0..node_count_of(g)`; an edge is the triple (endpoint, endpoint, weight)
//! with the orientation it was added under.

use petgraph::visit::EdgeRef;
use vstd::prelude::*;

verus! {

/// An edge-weighted undirected graph: each node carries a two-component
/// integer payload (passed through untouched by the engine) and each edge a
/// non-negative integer weight.
pub type WeightedGraph = petgraph::graph::Graph<(u64, u64), u64, petgraph::Undirected, u32>;

#[verifier::external_type_specification]
#[verifier::external_body]
#[verifier::reject_recursive_types(N)]
#[verifier::reject_recursive_types(E)]
#[verifier::reject_recursive_types(Ty)]
#[verifier::reject_recursive_types(Ix)]
pub struct ExGraph<N, E, Ty, Ix>(petgraph::graph::Graph<N, E, Ty, Ix>);

#[verifier::external_type_specification]
#[verifier::external_body]
pub struct ExUndirected(petgraph::Undirected);

/// How many nodes the graph holds; its node identifiers are exactly
/// `0..node_count_of(g)`.
pub uninterp spec fn node_count_of(g: WeightedGraph) -> usize;

/// The graph's edges in index (insertion) order, each as
/// (endpoint, endpoint, weight) with the orientation it was added under.
pub uninterp spec fn edge_seq(g: WeightedGraph) -> Seq<(usize, usize, u64)>;

/// Relies on petgraph's `Graph::new_undirected`: an empty graph.
#[verifier::external_body]
pub(crate) fn gr_new() -> (g: WeightedGraph)
    ensures
        node_count_of(g) == 0,
        edge_seq(g) == Seq::<(usize, usize, u64)>::empty(),
{
    petgraph::graph::Graph::new_undirected()
}

/// Relies on petgraph's `Clone` for `Graph`: the clone keeps all node and
/// edge data under the same indices.
#[verifier::external_body]
pub(crate) fn gr_clone(g: &WeightedGraph) -> (r: WeightedGraph)
    ensures
        node_count_of(r) == node_count_of(*g),
        edge_seq(r) == edge_seq(*g),
{
    g.clone()
}

/// Relies on petgraph's `Graph::node_count`; a graph with `u32` indices holds
/// at most 0xffff_ffff nodes.
#[verifier::external_body]
pub(crate) fn gr_node_count(g: &WeightedGraph) -> (n: usize)
    ensures
        n == node_count_of(*g),
        n <= 0xffff_ffffusize,
{
    g.node_count()
}

/// Relies on petgraph's `Graph::add_node`: appends a node and returns its
/// index, which equals the old node count. It panics only when the `u32`
/// index limit is reached, which the precondition rules out.
#[verifier::external_body]
pub(crate) fn gr_add_node(g: &mut WeightedGraph, payload: (u64, u64)) -> (r: usize)
    requires
        node_count_of(*old(g)) < 0xffff_ffffusize,
    ensures
        r == node_count_of(*old(g)),
        node_count_of(*final(g)) == node_count_of(*old(g)) + 1,
        edge_seq(*final(g)) == edge_seq(*old(g)),
{
    g.add_node(payload).index()
}

/// Relies on petgraph's `Graph::add_edge`: appends an edge with the given
/// endpoints and weight. It panics only on a missing endpoint or at the `u32`
/// index limit, which the preconditions rule out.
#[verifier::external_body]
pub(crate) fn gr_add_edge(g: &mut WeightedGraph, a: usize, b: usize, w: u64)
    requires
        a < node_count_of(*old(g)),
        b < node_count_of(*old(g)),
        edge_seq(*old(g)).len() < 0xffff_ffffusize,
    ensures
        node_count_of(*final(g)) == node_count_of(*old(g)),
        edge_seq(*final(g)) == edge_seq(*old(g)).push((a, b, w)),
{
    g.add_edge(
        petgraph::graph::NodeIndex::new(a),
        petgraph::graph::NodeIndex::new(b),
        w,
    );
}

/// Relies on petgraph's `Graph::edge_references`: all edges in index
/// (insertion) order with their stored endpoints and weights. Every endpoint
/// names an existing node, and a graph with `u32` indices holds at most
/// 0xffff_ffff edges.
#[verifier::external_body]
pub(crate) fn gr_edge_list(g: &WeightedGraph) -> (v: Vec<(usize, usize, u64)>)
    ensures
        v@ == edge_seq(*g),
        v@.len() <= 0xffff_ffffusize,
        forall|i: int|
            0 <= i < v@.len() ==> (#[trigger] v@[i]).0 < node_count_of(*g)
                && v@[i].1 < node_count_of(*g),
{
    let mut v = Vec::with_capacity(g.edge_count());
    for e in g.edge_references() {
        v.push((e.source().index(), e.target().index(), *e.weight()));
    }
    v
}

} // verus!
