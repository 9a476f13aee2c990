//! The executable engine: partition initializer, modularity delta evaluator,
//! local mover, aggregator and the level loop.
//!
//! Every function here is specified, and proved, against the spec functions
//! in `model`.

use vstd::prelude::*;

use crate::graph::{
    edge_seq, gr_add_edge, gr_add_node, gr_clone, gr_edge_list, gr_new, gr_node_count,
    node_count_of, WeightedGraph,
};
use crate::model::{
    agg_edges, best_move, comm_map, comm_seq, comm_seq_from, compose_labels, edges_wf,
    engine_result, engine_state, find_pair, gain_num, ident_map, incident_weight,
    lemma_agg_weight, lemma_comm_seq_props, lemma_elem_weight_le_total, lemma_find_pair_props,
    lemma_index_of_in_range, lemma_inter_weight_le, lemma_total_weight_take,
    lemma_weight_bounds, level_next, mover_from, mover_fuel, node_set, pair_matches, part_wf,
    pass_from, remap, scan_best, total_weight, weight_to, GraphEdge, LEVELS,
};
use std::collections::HashMap;

verus! {

broadcast use vstd::std_specs::hash::group_hash_axioms;

/// Why a call into the engine was refused.
///
/// `InvalidInput` names a graph with no nodes, on which the engine is not
/// defined; `WeightOverflow` names a graph whose summed edge weight exceeds
/// the machine word the engine accumulates weights in.
#[derive(Clone, Copy, Debug, PartialEq, Eq)]
pub enum LeidenError {
    InvalidInput,
    WeightOverflow,
}

/// The objective gain of one candidate reassignment, as the exact rational
/// `num / den`. All candidates of one node share the denominator (the node's
/// whole incident weight), so candidates compare by numerator alone; a
/// zero-degree node has `den == 0` and its gain counts as zero.
#[derive(Clone, Copy, Debug, PartialEq, Eq)]
pub struct Gain {
    pub num: i128,
    pub den: u64,
}

/// Sum all edge weights, or report that the sum does not fit in a `u64`.
fn sum_edge_weights(edges: &Vec<GraphEdge>) -> (r: Option<u64>)
    ensures
        match r {
            Some(t) => t == total_weight(edges@),
            None => total_weight(edges@) > u64::MAX,
        },
{
    let ghost es = edges@;
    let mut total: u64 = 0;
    let mut i: usize = 0;
    while i < edges.len()
        invariant
            0 <= i <= edges.len(),
            es == edges@,
            total == total_weight(es.take(i as int)),
        decreases edges.len() - i,
    {
        proof {
            assert(es.take(i + 1).drop_last() =~= es.take(i as int));
        }
        match total.checked_add(edges[i].2) {
            Some(t) => {
                total = t;
            },
            None => {
                proof {
                    lemma_total_weight_take(es, i + 1);
                }
                return None;
            },
        }
        i += 1;
    }
    proof {
        assert(es.take(edges@.len() as int) =~= es);
    }
    Some(total)
}

/// The partition state initializer: every node of the graph is assigned to
/// its own singleton community, labelled by the node's own identifier.
pub fn initial_community_assignments(graph: &WeightedGraph) -> (m: HashMap<usize, usize>)
    ensures
        m@ == ident_map(node_count_of(*graph)),
{
    let n = gr_node_count(graph);
    let mut m: HashMap<usize, usize> = HashMap::new();
    proof {
        assert(m@ =~= ident_map(0));
    }
    let mut v: usize = 0;
    while v < n
        invariant
            0 <= v <= n,
            n == node_count_of(*graph),
            m@ == ident_map(v),
        decreases n - v,
    {
        m.insert(v, v);
        proof {
            assert(m@ =~= ident_map((v + 1) as usize));
        }
        v += 1;
    }
    m
}

/// The modularity delta evaluator: the gain of moving `node` from
/// `from_community` to `to_community`, read off the node's incident edge
/// weights alone. The numerator is the weight towards the candidate minus
/// the weight towards the present community; the denominator is the node's
/// whole incident weight (zero for an isolated node, which therefore never
/// gains from any move).
pub fn modularity_delta(
    graph: &WeightedGraph,
    community_assignments: &HashMap<usize, usize>,
    node: usize,
    from_community: usize,
    to_community: usize,
) -> (d: Gain)
    requires
        part_wf(community_assignments@, node_count_of(*graph)),
        total_weight(edge_seq(*graph)) <= u64::MAX,
    ensures
        d.num == gain_num(
            edge_seq(*graph),
            community_assignments@,
            node,
            from_community,
            to_community,
        ),
        d.den == incident_weight(edge_seq(*graph), node),
{
    let ghost es = edge_seq(*graph);
    let ghost p = community_assignments@;
    let edges = gr_edge_list(graph);
    let mut from_w: u64 = 0;
    let mut to_w: u64 = 0;
    let mut node_w: u64 = 0;
    let mut i: usize = 0;
    while i < edges.len()
        invariant
            0 <= i <= edges.len(),
            edges@ == es,
            p == community_assignments@,
            part_wf(p, node_count_of(*graph)),
            total_weight(es) <= u64::MAX,
            edges_wf(es, node_count_of(*graph)),
            node_w == incident_weight(es.take(i as int), node),
            from_w == weight_to(es.take(i as int), p, node, from_community),
            to_w == weight_to(es.take(i as int), p, node, to_community),
        decreases edges.len() - i,
    {
        let e = edges[i];
        proof {
            assert(es.take(i + 1).drop_last() =~= es.take(i as int));
            lemma_weight_bounds(es.take(i + 1), p, node, from_community);
            lemma_weight_bounds(es.take(i + 1), p, node, to_community);
            lemma_total_weight_take(es, i + 1);
        }
        if e.0 == node || e.1 == node {
            let other = if e.0 == node {
                e.1
            } else {
                e.0
            };
            let oc = *community_assignments.get(&other).unwrap();
            node_w = node_w + e.2;
            if oc == from_community {
                from_w = from_w + e.2;
            }
            if oc == to_community {
                to_w = to_w + e.2;
            }
        }
        i += 1;
    }
    proof {
        assert(es.take(edges@.len() as int) =~= es);
        lemma_weight_bounds(es, p, node, from_community);
        lemma_weight_bounds(es, p, node, to_community);
    }
    Gain { num: to_w as i128 - from_w as i128, den: node_w }
}

/// The local mover: scan all nodes in identifier order, reassigning each to
/// the best-scoring neighboring community (ties keep the first candidate met
/// in edge order, and "stay" wins unless a candidate's gain is strictly
/// positive), until one full scan moves nothing. A fuel ceiling of
/// total-weight-plus-one passes bounds the loop; the ceiling never binds,
/// because every pass that moves a node lowers the inter-community weight
/// (`laws::lemma_mover_reaches_fixpoint`), so the returned partition is
/// always one a further full pass would leave untouched.
pub fn local_moving(graph: &WeightedGraph, community_assignments: &mut HashMap<usize, usize>)
    requires
        part_wf(old(community_assignments)@, node_count_of(*graph)),
        total_weight(edge_seq(*graph)) <= u64::MAX,
    ensures
        final(community_assignments)@ == mover_from(
            edge_seq(*graph),
            old(community_assignments)@,
            node_count_of(*graph),
            mover_fuel(edge_seq(*graph)),
        ),
        part_wf(final(community_assignments)@, node_count_of(*graph)),
{
    let ghost es = edge_seq(*graph);
    let ghost p0 = old(community_assignments)@;
    let n = gr_node_count(graph);
    let edges = gr_edge_list(graph);
    let total = sum_edge_weights(&edges).unwrap();
    let ghost target = mover_from(es, p0, n, mover_fuel(es));
    let mut fuel: u128 = total as u128 + 1;
    proof {
        assert(fuel as nat == mover_fuel(es));
    }
    let mut improvement = true;
    while improvement && fuel > 0
        invariant
            n == node_count_of(*graph),
            edges@ == es,
            es == edge_seq(*graph),
            total_weight(es) <= u64::MAX,
            edges_wf(es, n),
            part_wf(community_assignments@, n),
            improvement ==> mover_from(es, community_assignments@, n, fuel as nat) == target,
            !improvement ==> community_assignments@ == target,
        decreases fuel,
    {
        improvement = false;
        fuel = fuel - 1;
        let ghost p_start = community_assignments@;
        let mut node: usize = 0;
        while node < n
            invariant
                0 <= node <= n,
                n == node_count_of(*graph),
                edges@ == es,
                es == edge_seq(*graph),
                total_weight(es) <= u64::MAX,
                edges_wf(es, n),
                part_wf(community_assignments@, n),
                mover_from(es, p_start, n, (fuel + 1) as nat) == target,
                pass_from(es, p_start, n, 0).0 == pass_from(
                    es,
                    community_assignments@,
                    n,
                    node as int,
                ).0,
                pass_from(es, p_start, n, 0).1 == (improvement || pass_from(
                    es,
                    community_assignments@,
                    n,
                    node as int,
                ).1),
            decreases n - node,
        {
            let ghost p_node = community_assignments@;
            let node_community = *community_assignments.get(&node).unwrap();
            let mut best_community = node_community;
            let mut best_num: i128 = 0;
            let mut j: usize = 0;
            while j < edges.len()
                invariant
                    0 <= j <= edges.len(),
                    edges@ == es,
                    es == edge_seq(*graph),
                    n == node_count_of(*graph),
                    total_weight(es) <= u64::MAX,
                    edges_wf(es, n),
                    part_wf(community_assignments@, n),
                    p_node == community_assignments@,
                    node < n,
                    node_community == p_node[node],
                    best_community < n,
                    scan_best(es, p_node, node, node_community, 0, node_community, 0)
                        == scan_best(
                        es,
                        p_node,
                        node,
                        node_community,
                        j as int,
                        best_community,
                        best_num as int,
                    ),
                decreases edges.len() - j,
            {
                let e = edges[j];
                if e.0 == node || e.1 == node {
                    let other = if e.0 == node {
                        e.1
                    } else {
                        e.0
                    };
                    let oc = *community_assignments.get(&other).unwrap();
                    if oc != node_community {
                        let delta = modularity_delta(
                            graph,
                            community_assignments,
                            node,
                            node_community,
                            oc,
                        );
                        if delta.num > best_num {
                            best_num = delta.num;
                            best_community = oc;
                        }
                    }
                }
                j += 1;
            }
            proof {
                assert(best_community == best_move(es, p_node, node));
            }
            if best_community != node_community {
                community_assignments.insert(node, best_community);
                improvement = true;
                proof {
                    assert(community_assignments@.dom() =~= node_set(n));
                    assert(forall|v: usize|
                        v < n ==> #[trigger] community_assignments@[v] < n);
                }
            }
            node += 1;
        }
        proof {
            assert(pass_from(es, community_assignments@, n, n as int).0
                == community_assignments@);
        }
    }
}

/// The first position in `v` holding an edge on the unordered pair `{a, b}`,
/// or `v.len()` when none does.
fn find_pair_vec(v: &Vec<GraphEdge>, a: usize, b: usize) -> (k: usize)
    ensures
        k as int == find_pair(v@, a, b),
{
    let mut k: usize = 0;
    while k < v.len()
        invariant
            0 <= k <= v.len(),
            forall|j: int| 0 <= j < k ==> !pair_matches(#[trigger] v@[j], a, b),
        decreases v.len() - k,
    {
        let e = v[k];
        if (e.0 == a && e.1 == b) || (e.0 == b && e.1 == a) {
            proof {
                lemma_find_pair_props(v@, a, b);
                let fp = find_pair(v@, a, b);
                if fp < k {
                    assert(!pair_matches(v@[fp], a, b));
                }
                if fp > k {
                    assert(!pair_matches(v@[k as int], a, b));
                }
            }
            return k;
        }
        k += 1;
    }
    proof {
        lemma_find_pair_props(v@, a, b);
        let fp = find_pair(v@, a, b);
        if fp < v@.len() {
            assert(!pair_matches(v@[fp], a, b));
        }
    }
    k
}

/// The aggregator: build the coarsened graph whose nodes stand for the
/// current communities in first-seen order over the node identifiers, merge
/// the inter-community edges by summing weights per unordered pair of coarse
/// nodes (edges inside one community are dropped, not kept as self-loops),
/// and return the coarse graph, the partition rewritten to coarse node
/// identifiers, and the community-to-coarse-node map.
pub fn refinement(
    graph: &WeightedGraph,
    community_assignments: &HashMap<usize, usize>,
) -> (r: (WeightedGraph, HashMap<usize, usize>, HashMap<usize, usize>))
    requires
        part_wf(community_assignments@, node_count_of(*graph)),
        total_weight(edge_seq(*graph)) <= u64::MAX,
    ensures
        node_count_of(r.0) == comm_seq(community_assignments@, node_count_of(*graph)).len(),
        edge_seq(r.0) == agg_edges(
            edge_seq(*graph),
            community_assignments@,
            comm_seq(community_assignments@, node_count_of(*graph)),
            edge_seq(*graph).len() as int,
        ),
        r.1@ == remap(
            community_assignments@,
            comm_seq(community_assignments@, node_count_of(*graph)),
        ),
        r.2@ == comm_map(comm_seq(community_assignments@, node_count_of(*graph))),
{
    let ghost es = edge_seq(*graph);
    let ghost p = community_assignments@;
    let n = gr_node_count(graph);
    let edges = gr_edge_list(graph);
    let ghost cs_full = comm_seq(p, n);

    // First-seen community order and the community -> coarse-node map.
    let mut comm_order: Vec<usize> = Vec::new();
    let mut mapping: HashMap<usize, usize> = HashMap::new();
    let mut v: usize = 0;
    while v < n
        invariant
            0 <= v <= n,
            n == node_count_of(*graph),
            p == community_assignments@,
            part_wf(p, n),
            comm_order@ == comm_seq_from(p, v as int),
            comm_order@.no_duplicates(),
            mapping@.dom() == comm_order@.to_set(),
            forall|j: int| 0 <= j < comm_order@.len() ==> mapping@[#[trigger] comm_order@[j]] == j,
        decreases n - v,
    {
        let ghost s = comm_order@;
        let c = *community_assignments.get(&v).unwrap();
        if !mapping.contains_key(&c) {
            proof {
                assert(!s.to_set().contains(c));
                assert(!s.contains(c));
            }
            mapping.insert(c, comm_order.len());
            comm_order.push(c);
            proof {
                lemma_comm_seq_props(p, (v + 1) as int);
                assert(comm_order@ == comm_seq_from(p, (v + 1) as int));
                assert forall|x: usize| #[trigger] comm_order@.to_set().contains(x) implies
                    mapping@.dom().contains(x) by {
                    let k = choose|k: int| 0 <= k < comm_order@.len() && comm_order@[k] == x;
                    if k < s.len() {
                        assert(s[k] == x);
                        assert(s.contains(x));
                    }
                }
                assert forall|x: usize| #[trigger] mapping@.dom().contains(x) implies
                    comm_order@.to_set().contains(x) by {
                    if x == c {
                        assert(comm_order@[s.len() as int] == x);
                    } else {
                        assert(s.contains(x));
                        let k = choose|k: int| 0 <= k < s.len() && s[k] == x;
                        assert(comm_order@[k] == x);
                    }
                }
                assert(mapping@.dom() =~= comm_order@.to_set());
                assert forall|j: int| 0 <= j < comm_order@.len() implies
                    mapping@[#[trigger] comm_order@[j]] == j by {
                    if j < s.len() {
                        assert(s[j] == comm_order@[j]);
                        if s[j] == c {
                            assert(s.contains(c));
                        }
                    }
                }
            }
        } else {
            proof {
                assert(s.to_set().contains(c));
                assert(s.contains(c));
                assert(comm_order@ == comm_seq_from(p, (v + 1) as int));
            }
        }
        v += 1;
    }
    proof {
        assert(comm_order@ == cs_full);
        lemma_comm_seq_props(p, n as int);
    }

    // One coarse node per community, in first-seen order.
    let mut new_graph = gr_new();
    let mut j: usize = 0;
    while j < comm_order.len()
        invariant
            0 <= j <= comm_order.len(),
            node_count_of(new_graph) == j,
            edge_seq(new_graph) == Seq::<GraphEdge>::empty(),
            comm_order@.len() <= n,
            n <= 0xffff_ffffusize,
        decreases comm_order.len() - j,
    {
        let c = comm_order[j];
        gr_add_node(&mut new_graph, (c as u64, 0));
        j += 1;
    }

    // Merge the inter-community edges on coarse node pairs.
    let mut coarse: Vec<GraphEdge> = Vec::new();
    let mut i: usize = 0;
    while i < edges.len()
        invariant
            0 <= i <= edges.len(),
            edges@ == es,
            es == edge_seq(*graph),
            p == community_assignments@,
            part_wf(p, n),
            n == node_count_of(*graph),
            edges_wf(es, n),
            total_weight(es) <= u64::MAX,
            comm_order@ == cs_full,
            cs_full == comm_seq(p, n),
            cs_full.no_duplicates(),
            forall|c: usize|
                cs_full.contains(c) <==> exists|u: usize| u < n && #[trigger] p[u] == c,
            mapping@.dom() == cs_full.to_set(),
            forall|j2: int| 0 <= j2 < cs_full.len() ==> mapping@[#[trigger] cs_full[j2]] == j2,
            coarse@ == agg_edges(es, p, cs_full, i as int),
            forall|k: int|
                0 <= k < coarse@.len() ==> (#[trigger] coarse@[k]).0 < cs_full.len()
                    && coarse@[k].1 < cs_full.len(),
            coarse@.len() <= i,
        decreases edges.len() - i,
    {
        let e = edges[i];
        let ca2 = *community_assignments.get(&e.0).unwrap();
        let cb2 = *community_assignments.get(&e.1).unwrap();
        if ca2 != cb2 {
            proof {
                assert(cs_full.contains(ca2));
                assert(cs_full.contains(cb2));
                lemma_index_of_in_range(cs_full, ca2);
                lemma_index_of_in_range(cs_full, cb2);
                assert(mapping@[cs_full[cs_full.index_of(ca2)]] == cs_full.index_of(ca2));
                assert(mapping@[cs_full[cs_full.index_of(cb2)]] == cs_full.index_of(cb2));
            }
            let na = *mapping.get(&ca2).unwrap();
            let nb = *mapping.get(&cb2).unwrap();
            let k = find_pair_vec(&coarse, na, nb);
            proof {
                lemma_find_pair_props(coarse@, na, nb);
                lemma_agg_weight(es, p, cs_full, i as int);
                lemma_inter_weight_le(es, p, i as int);
                lemma_total_weight_take(es, i + 1);
                assert(es.take(i + 1).drop_last() =~= es.take(i as int));
                if (k as int) < coarse@.len() {
                    lemma_elem_weight_le_total(coarse@, k as int);
                }
            }
            if k < coarse.len() {
                let old_e = coarse[k];
                coarse.set(k, (old_e.0, old_e.1, old_e.2 + e.2));
            } else {
                coarse.push((na, nb, e.2));
            }
        }
        i += 1;
    }
    proof {
        assert(coarse@ == agg_edges(es, p, cs_full, es.len() as int));
    }

    // Put the merged edges into the coarse graph.
    let mut k2: usize = 0;
    while k2 < coarse.len()
        invariant
            0 <= k2 <= coarse.len(),
            node_count_of(new_graph) == cs_full.len(),
            edge_seq(new_graph) == coarse@.take(k2 as int),
            forall|k: int|
                0 <= k < coarse@.len() ==> (#[trigger] coarse@[k]).0 < cs_full.len()
                    && coarse@[k].1 < cs_full.len(),
            coarse@.len() <= edges@.len(),
            edges@.len() <= 0xffff_ffffusize,
        decreases coarse.len() - k2,
    {
        let e = coarse[k2];
        gr_add_edge(&mut new_graph, e.0, e.1, e.2);
        proof {
            assert(coarse@.take(k2 as int).push(e) =~= coarse@.take(k2 + 1));
        }
        k2 += 1;
    }
    proof {
        assert(coarse@.take(coarse@.len() as int) =~= coarse@);
    }

    // The partition rewritten to coarse node identifiers.
    let mut new_assignments: HashMap<usize, usize> = HashMap::new();
    let mut v2: usize = 0;
    while v2 < n
        invariant
            0 <= v2 <= n,
            p == community_assignments@,
            part_wf(p, n),
            n == node_count_of(*graph),
            cs_full == comm_seq(p, n),
            cs_full.no_duplicates(),
            forall|c: usize|
                cs_full.contains(c) <==> exists|u: usize| u < n && #[trigger] p[u] == c,
            mapping@.dom() == cs_full.to_set(),
            forall|j2: int| 0 <= j2 < cs_full.len() ==> mapping@[#[trigger] cs_full[j2]] == j2,
            new_assignments@.dom() == node_set(v2),
            forall|u: usize|
                u < v2 ==> #[trigger] new_assignments@[u] == cs_full.index_of(p[u]) as usize,
        decreases n - v2,
    {
        let c = *community_assignments.get(&v2).unwrap();
        proof {
            assert(cs_full.contains(c));
            lemma_index_of_in_range(cs_full, c);
            assert(mapping@[cs_full[cs_full.index_of(c)]] == cs_full.index_of(c));
        }
        let nn = *mapping.get(&c).unwrap();
        new_assignments.insert(v2, nn);
        proof {
            assert(new_assignments@.dom() =~= node_set((v2 + 1) as usize));
        }
        v2 += 1;
    }
    proof {
        assert(new_assignments@ =~= remap(p, cs_full));
        assert forall|c: usize| #[trigger] mapping@.dom().contains(c) implies
            mapping@[c] == cs_full.index_of(c) as usize by {
            assert(cs_full.contains(c));
            lemma_index_of_in_range(cs_full, c);
            assert(mapping@[cs_full[cs_full.index_of(c)]] == cs_full.index_of(c));
        }
        assert(mapping@ =~= comm_map(cs_full));
    }
    (new_graph, new_assignments, mapping)
}

/// The orchestrator: run exactly `LEVELS` levels — local mover to
/// convergence, then aggregation — threading the evolving graph between
/// levels, and return the final community assignment keyed by the original
/// node identifiers. Each level starts from a fresh singleton partition of
/// the current coarse graph, and the engine composes the per-level
/// remappings, so the returned map always covers exactly the input graph's
/// nodes. A graph with no nodes is refused as `InvalidInput`; one whose
/// summed edge weight does not fit in a `u64` as `WeightOverflow`. No error
/// stands for an internal inconsistency: the partition handed to each stage
/// provably covers that stage's graph, so that failure has no path here.
pub fn leiden_communities(graph: &WeightedGraph) -> (r: Result<
    HashMap<usize, usize>,
    LeidenError,
>)
    ensures
        node_count_of(*graph) == 0 ==> r == Err::<HashMap<usize, usize>, LeidenError>(
            LeidenError::InvalidInput,
        ),
        node_count_of(*graph) > 0 && total_weight(edge_seq(*graph)) > u64::MAX ==> r
            == Err::<HashMap<usize, usize>, LeidenError>(LeidenError::WeightOverflow),
        node_count_of(*graph) > 0 && total_weight(edge_seq(*graph)) <= u64::MAX ==> (r matches Ok(
            m,
        ) && m@ == engine_result(node_count_of(*graph), edge_seq(*graph))),
        r matches Ok(m) ==> m@.dom() == node_set(node_count_of(*graph)),
{
    let ghost es0 = edge_seq(*graph);
    let n0 = gr_node_count(graph);
    if n0 == 0 {
        return Err(LeidenError::InvalidInput);
    }
    let edges0 = gr_edge_list(graph);
    let checked_total = sum_edge_weights(&edges0);
    if checked_total.is_none() {
        return Err(LeidenError::WeightOverflow);
    }
    proof {
        assert(total_weight(es0) <= u64::MAX);
    }

    let mut current = gr_clone(graph);
    let mut labels = initial_community_assignments(graph);
    proof {
        assert(labels@.dom() =~= node_set(n0));
    }
    let mut level: usize = 0;
    while level < LEVELS
        invariant
            0 <= level <= LEVELS,
            n0 == node_count_of(*graph),
            n0 >= 1,
            es0 == edge_seq(*graph),
            node_count_of(current) == engine_state(n0, es0, level as nat).0,
            edge_seq(current) == engine_state(n0, es0, level as nat).1,
            labels@ == engine_state(n0, es0, level as nat).2,
            node_count_of(current) >= 1,
            total_weight(edge_seq(current)) <= u64::MAX,
            labels@.dom() == node_set(n0),
            forall|u: usize| u < n0 ==> #[trigger] labels@[u] < node_count_of(current),
        decreases LEVELS - level,
    {
        let ghost n_cur = node_count_of(current);
        let ghost es_cur = edge_seq(current);
        let mut part = initial_community_assignments(&current);
        local_moving(&current, &mut part);
        let ghost p = part@;
        let ghost cs = comm_seq(p, n_cur);
        proof {
            lemma_comm_seq_props(p, n_cur as int);
        }
        let r3 = refinement(&current, &part);
        let new_graph = r3.0;
        let new_assign = r3.1;
        let ghost rm = remap(p, cs);
        proof {
            assert(rm.dom() =~= node_set(n_cur));
        }

        // Compose: each original node's label goes through the remapping.
        let mut new_labels: HashMap<usize, usize> = HashMap::new();
        let mut u: usize = 0;
        while u < n0
            invariant
                0 <= u <= n0,
                labels@.dom() == node_set(n0),
                forall|w: usize| w < n0 ==> #[trigger] labels@[w] < n_cur,
                rm.dom() == node_set(n_cur),
                new_assign@ == rm,
                new_labels@.dom() == node_set(u),
                forall|w: usize| w < u ==> #[trigger] new_labels@[w] == rm[labels@[w]],
            decreases n0 - u,
        {
            let l = *labels.get(&u).unwrap();
            let nl = *new_assign.get(&l).unwrap();
            new_labels.insert(u, nl);
            proof {
                assert(new_labels@.dom() =~= node_set((u + 1) as usize));
            }
            u += 1;
        }
        proof {
            assert(new_labels@ =~= compose_labels(labels@, rm));
            // The next level's state is exactly this level's transition.
            assert(engine_state(n0, es0, (level + 1) as nat) == level_next(
                engine_state(n0, es0, level as nat).0,
                engine_state(n0, es0, level as nat).1,
                engine_state(n0, es0, level as nat).2,
            ));
            // The coarse graph still satisfies the weight bound.
            lemma_agg_weight(es_cur, p, cs, es_cur.len() as int);
            lemma_inter_weight_le(es_cur, p, es_cur.len() as int);
            assert(es_cur.take(es_cur.len() as int) =~= es_cur);
            // Every new label is a valid coarse node.
            assert forall|w: usize| w < n0 implies #[trigger] new_labels@[w] < cs.len() by {
                let l0 = labels@[w];
                assert(cs.contains(p[l0]));
                lemma_index_of_in_range(cs, p[l0]);
            }
        }
        labels = new_labels;
        current = new_graph;
        level += 1;
    }
    proof {
        assert(labels@ == engine_result(n0, es0));
    }
    Ok(labels)
}

} // verus!
