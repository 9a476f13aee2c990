use std::collections::HashMap;

use petgraph::graph::Graph;
use petgraph::visit::EdgeRef;
use petgraph::Undirected;

use leiden::{leiden_communities, local_moving, modularity_delta, refinement, WeightedGraph};

#[test]
fn modularity_delta_exact_values() {
    let mut graph: WeightedGraph = Graph::new_undirected();
    let a = graph.add_node((0, 0));
    let b = graph.add_node((0, 0));
    let c = graph.add_node((0, 0));
    graph.add_edge(a, b, 2);
    graph.add_edge(a, c, 3);

    let mut part: HashMap<usize, usize> = HashMap::new();
    part.insert(0, 0);
    part.insert(1, 1);
    part.insert(2, 2);

    // Node 0 towards community 1: weight 2 there, none at home, degree 5.
    let d = modularity_delta(&graph, &part, 0, 0, 1);
    assert_eq!(d.num, 2);
    assert_eq!(d.den, 5);

    // Node 0 towards community 2: weight 3 there.
    let d = modularity_delta(&graph, &part, 0, 0, 2);
    assert_eq!(d.num, 3);
    assert_eq!(d.den, 5);

    // Node 1 towards community 2: no weight either way, degree 2.
    let d = modularity_delta(&graph, &part, 1, 1, 2);
    assert_eq!(d.num, 0);
    assert_eq!(d.den, 2);
}

#[test]
fn modularity_delta_isolated_node_gains_nothing() {
    let mut graph: WeightedGraph = Graph::new_undirected();
    let a = graph.add_node((0, 0));
    let b = graph.add_node((0, 0));
    graph.add_node((0, 0));
    graph.add_edge(a, b, 4);

    let mut part: HashMap<usize, usize> = HashMap::new();
    part.insert(0, 0);
    part.insert(1, 1);
    part.insert(2, 2);

    let d = modularity_delta(&graph, &part, 2, 2, 0);
    assert_eq!(d.num, 0);
    assert_eq!(d.den, 0);
}

#[test]
fn local_moving_merges_a_triangle() {
    let mut graph: WeightedGraph = Graph::new_undirected();
    let a = graph.add_node((0, 0));
    let b = graph.add_node((0, 0));
    let c = graph.add_node((0, 0));
    graph.add_edge(a, b, 1);
    graph.add_edge(b, c, 1);
    graph.add_edge(a, c, 1);

    let mut part: HashMap<usize, usize> = HashMap::new();
    part.insert(0, 0);
    part.insert(1, 1);
    part.insert(2, 2);

    local_moving(&graph, &mut part);

    // Node 0 adopts its first neighbor's community, then the rest follow.
    assert_eq!(part[&0], 1);
    assert_eq!(part[&1], 1);
    assert_eq!(part[&2], 1);
}

#[test]
fn local_moving_ignores_zero_weight_edges() {
    let mut graph: WeightedGraph = Graph::new_undirected();
    let a = graph.add_node((0, 0));
    let b = graph.add_node((0, 0));
    graph.add_edge(a, b, 0);

    let mut part: HashMap<usize, usize> = HashMap::new();
    part.insert(0, 0);
    part.insert(1, 1);

    local_moving(&graph, &mut part);

    // A zero-weight edge is no evidence: the gain is never strictly positive.
    assert_eq!(part[&0], 0);
    assert_eq!(part[&1], 1);
}

#[test]
fn refinement_counts_distinct_communities() {
    let mut graph: WeightedGraph = Graph::new_undirected();
    let a = graph.add_node((0, 0));
    let b = graph.add_node((0, 0));
    let c = graph.add_node((0, 0));
    let d = graph.add_node((0, 0));
    graph.add_edge(a, b, 1);
    graph.add_edge(c, d, 1);
    graph.add_edge(b, c, 5);

    let mut part: HashMap<usize, usize> = HashMap::new();
    part.insert(0, 1);
    part.insert(1, 1);
    part.insert(2, 3);
    part.insert(3, 3);

    let (coarse, new_assignments, mapping) = refinement(&graph, &part);

    // Two distinct community identifiers, so exactly two coarse nodes.
    assert_eq!(coarse.node_count(), 2);
    // First-seen order: community 1 becomes node 0, community 3 becomes node 1.
    assert_eq!(mapping[&1], 0);
    assert_eq!(mapping[&3], 1);
    assert_eq!(mapping.len(), 2);
    // The partition is rewritten to coarse node identifiers.
    assert_eq!(new_assignments[&0], 0);
    assert_eq!(new_assignments[&1], 0);
    assert_eq!(new_assignments[&2], 1);
    assert_eq!(new_assignments[&3], 1);
}

#[test]
fn refinement_drops_intra_community_edges() {
    let mut graph: WeightedGraph = Graph::new_undirected();
    let a = graph.add_node((0, 0));
    let b = graph.add_node((0, 0));
    let c = graph.add_node((0, 0));
    let d = graph.add_node((0, 0));
    graph.add_edge(a, b, 1);
    graph.add_edge(c, d, 1);
    graph.add_edge(b, c, 5);

    let mut part: HashMap<usize, usize> = HashMap::new();
    part.insert(0, 1);
    part.insert(1, 1);
    part.insert(2, 3);
    part.insert(3, 3);

    let (coarse, _new_assignments, _mapping) = refinement(&graph, &part);

    // Only the inter-community edge survives; the coarse total weight (5) is
    // strictly below the original total (7) because intra-community edges of
    // positive weight were dropped.
    assert_eq!(coarse.edge_count(), 1);
    let total: u64 = coarse.edge_references().map(|e| *e.weight()).sum();
    assert_eq!(total, 5);
    assert!(total <= 7);
    assert!(total < 7);
}

#[test]
fn refinement_merges_parallel_inter_edges() {
    let mut graph: WeightedGraph = Graph::new_undirected();
    let a = graph.add_node((0, 0));
    let b = graph.add_node((0, 0));
    let c = graph.add_node((0, 0));
    let d = graph.add_node((0, 0));
    graph.add_edge(a, c, 3);
    graph.add_edge(b, d, 4);
    graph.add_edge(a, b, 1);

    let mut part: HashMap<usize, usize> = HashMap::new();
    part.insert(0, 0);
    part.insert(1, 0);
    part.insert(2, 2);
    part.insert(3, 2);

    let (coarse, _new_assignments, _mapping) = refinement(&graph, &part);

    // Both community-crossing edges collapse onto one coarse edge, weights
    // summed; the intra-community edge disappears.
    assert_eq!(coarse.node_count(), 2);
    assert_eq!(coarse.edge_count(), 1);
    let e = coarse.edge_references().next().unwrap();
    assert_eq!(*e.weight(), 7);
    let ends = (e.source().index(), e.target().index());
    assert!(ends == (0, 1) || ends == (1, 0));
}

#[test]
fn leiden_keeps_zero_weight_graph_apart() {
    let mut graph: WeightedGraph = Graph::new_undirected();
    let a = graph.add_node((0, 0));
    let b = graph.add_node((0, 0));
    graph.add_edge(a, b, 0);

    let result = leiden_communities(&graph).unwrap();
    assert_eq!(result[&0], 0);
    assert_eq!(result[&1], 1);
}
