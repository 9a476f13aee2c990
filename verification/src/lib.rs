//! Multi-level community detection on edge-weighted undirected graphs.
//!
//! The engine partitions the nodes of a petgraph graph into communities by
//! greedily improving a local modularity-style gain, then repeatedly coarsens
//! the graph (communities become nodes) and repeats, for a fixed number of
//! levels. Edge weights are non-negative integers, so every gain comparison
//! is exact.

pub mod engine;
pub mod graph;
pub mod laws;
pub mod model;

pub use crate::engine::{
    initial_community_assignments, leiden_communities, local_moving, modularity_delta,
    refinement, Gain, LeidenError,
};
pub use crate::graph::WeightedGraph;
