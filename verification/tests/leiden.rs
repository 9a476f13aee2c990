use std::collections::{HashMap, HashSet};

use petgraph::graph::Graph;
use petgraph::Undirected;

use leiden::{initial_community_assignments, leiden_communities, LeidenError, WeightedGraph};

fn create_test_graph() -> WeightedGraph {
    let mut graph = Graph::<(u64, u64), u64, Undirected>::new_undirected();
    let a = graph.add_node((0, 0));
    let b = graph.add_node((1, 0));
    let c = graph.add_node((1, 1));
    let d = graph.add_node((0, 1));

    graph.add_edge(a, b, 1);
    graph.add_edge(b, c, 1);
    graph.add_edge(c, d, 1);
    graph.add_edge(d, a, 1);
    graph.add_edge(a, c, 1);

    graph
}

#[test]
fn test_initial_community_assignments() {
    let graph = create_test_graph();
    let community_assignments = initial_community_assignments(&graph);

    assert_eq!(
        community_assignments,
        HashMap::from_iter(vec![(0, 0), (1, 1), (2, 2), (3, 3)])
    );
}

#[test]
fn test_leiden_communities() {
    let graph = create_test_graph();
    let community_assignments = leiden_communities(&graph).unwrap();

    // Check if all nodes belong to the same community
    let unique_communities: HashSet<usize> = community_assignments.values().cloned().collect();
    assert_eq!(unique_communities.len(), 1);

    // Check if community assignment is consistent across all nodes
    let first_community = *community_assignments.values().next().unwrap();
    for assignment in community_assignments.values() {
        assert_eq!(*assignment, first_community);
    }
}

#[test]
fn leiden_empty_graph_is_invalid_input() {
    let graph = Graph::<(u64, u64), u64, Undirected>::new_undirected();
    assert_eq!(leiden_communities(&graph), Err(LeidenError::InvalidInput));
}

#[test]
fn leiden_single_node_maps_to_itself() {
    let mut graph = Graph::<(u64, u64), u64, Undirected>::new_undirected();
    graph.add_node((0, 0));
    let result = leiden_communities(&graph).unwrap();
    assert_eq!(result.len(), 1);
    assert_eq!(result[&0], 0);
}

#[test]
fn leiden_disconnected_graph_keeps_singletons() {
    let mut graph = Graph::<(u64, u64), u64, Undirected>::new_undirected();
    for i in 0..5u64 {
        graph.add_node((i, 0));
    }
    let result = leiden_communities(&graph).unwrap();
    assert_eq!(result.len(), 5);
    for node in 0..5usize {
        assert_eq!(result[&node], node);
    }
}

#[test]
fn leiden_covers_all_nodes() {
    let mut graph = Graph::<(u64, u64), u64, Undirected>::new_undirected();
    let a = graph.add_node((0, 0));
    let b = graph.add_node((0, 0));
    let c = graph.add_node((0, 0));
    let d = graph.add_node((0, 0));
    let e = graph.add_node((0, 0));
    graph.add_edge(a, b, 3);
    graph.add_edge(c, d, 2);
    graph.add_edge(d, e, 7);

    let result = leiden_communities(&graph).unwrap();
    let keys: HashSet<usize> = result.keys().cloned().collect();
    let expected: HashSet<usize> = (0..5).collect();
    assert_eq!(keys, expected);
}

#[test]
fn leiden_runs_identically_twice() {
    let mut graph = Graph::<(u64, u64), u64, Undirected>::new_undirected();
    let nodes: Vec<_> = (0..7u64).map(|i| graph.add_node((i, i))).collect();
    // Two triangles joined by one light bridge.
    graph.add_edge(nodes[0], nodes[1], 4);
    graph.add_edge(nodes[1], nodes[2], 4);
    graph.add_edge(nodes[2], nodes[0], 4);
    graph.add_edge(nodes[3], nodes[4], 5);
    graph.add_edge(nodes[4], nodes[5], 5);
    graph.add_edge(nodes[5], nodes[3], 5);
    graph.add_edge(nodes[2], nodes[3], 1);
    graph.add_edge(nodes[5], nodes[6], 2);

    let first = leiden_communities(&graph).unwrap();
    let second = leiden_communities(&graph).unwrap();
    assert_eq!(first, second);
}

#[test]
fn leiden_weight_overflow_rejected() {
    let mut graph = Graph::<(u64, u64), u64, Undirected>::new_undirected();
    let a = graph.add_node((0, 0));
    let b = graph.add_node((0, 0));
    let c = graph.add_node((0, 0));
    graph.add_edge(a, b, u64::MAX);
    graph.add_edge(b, c, 1);
    assert_eq!(leiden_communities(&graph), Err(LeidenError::WeightOverflow));
}
