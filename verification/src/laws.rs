//! The laws the engine obeys, stated over the model and proved once and for
//! all: domain coverage, singleton behaviour on edge-free graphs,
//! determinism, the coarse node count, and weight conservation under
//! coarsening.

use vstd::prelude::*;

use crate::model::{
    agg_edges, best_move, comm_seq, comm_seq_from, community_ids, compose_labels, engine_result,
    engine_state, gain_num, ident_map, inter_weight, lemma_agg_weight, lemma_comm_seq_props,
    lemma_index_of_unique, lemma_inter_weight_le, level_next, mover_from, mover_fuel, node_set,
    pass_from, remap, scan_best, total_weight, weight_to, GraphEdge, LEVELS,
};

verus! {

/// The labels map covers exactly the original nodes at every level.
proof fn lemma_engine_state_dom(n0: usize, es0: Seq<GraphEdge>, k: nat)
    ensures
        engine_state(n0, es0, k).2.dom() == node_set(n0),
    decreases k,
{
    if k == 0 {
        assert(engine_state(n0, es0, 0).2.dom() =~= node_set(n0));
    } else {
        lemma_engine_state_dom(n0, es0, (k - 1) as nat);
        assert(engine_state(n0, es0, k).2.dom() =~= node_set(n0));
    }
}

/// For every graph, the engine's result maps exactly the original node set:
/// no node is omitted, none invented.
pub proof fn lemma_result_covers_all_nodes(n0: usize, es0: Seq<GraphEdge>)
    ensures
        engine_result(n0, es0).dom() == node_set(n0),
{
    lemma_engine_state_dom(n0, es0, LEVELS as nat);
}

/// With no edges, a pass of the local mover moves nothing.
proof fn lemma_pass_empty(p: Map<usize, usize>, n: usize, i: int)
    ensures
        pass_from(Seq::<GraphEdge>::empty(), p, n, i) == (p, false),
    decreases n - i,
{
    if 0 <= i < n {
        lemma_pass_empty(p, n, i + 1);
    }
}

/// With no edges, the mover returns its input partition whatever the fuel.
proof fn lemma_mover_empty(p: Map<usize, usize>, n: usize, fuel: nat)
    ensures
        mover_from(Seq::<GraphEdge>::empty(), p, n, fuel) == p,
{
    if fuel > 0 {
        lemma_pass_empty(p, n, 0);
    }
}

/// The first-seen community order of the singleton partition lists the node
/// identifiers in order.
proof fn lemma_comm_seq_ident(n: usize, i: int)
    requires
        0 <= i <= n,
    ensures
        comm_seq_from(ident_map(n), i) =~= Seq::new(i as nat, |k: int| k as usize),
    decreases i,
{
    if i > 0 {
        lemma_comm_seq_ident(n, i - 1);
        let s = comm_seq_from(ident_map(n), i - 1);
        let c = ident_map(n)[(i - 1) as usize];
        assert(c == (i - 1) as usize);
        if s.contains(c) {
            let k = choose|k: int| 0 <= k < s.len() && s[k] == c;
            assert(s[k] == k as usize);
            assert(false);
        }
        assert(s.push(c) =~= Seq::new(i as nat, |k: int| k as usize));
    }
}

/// One edge-free level leaves node count and singleton labels untouched.
proof fn lemma_level_next_empty(n: usize, labels: Map<usize, usize>)
    requires
        labels.dom() == node_set(n),
        forall|v: usize| v < n ==> #[trigger] labels[v] < n,
    ensures
        level_next(n, Seq::<GraphEdge>::empty(), labels).0 == n,
        level_next(n, Seq::<GraphEdge>::empty(), labels).1 == Seq::<GraphEdge>::empty(),
        level_next(n, Seq::<GraphEdge>::empty(), labels).2 == labels,
{
    lemma_mover_empty(ident_map(n), n, (total_weight(Seq::<GraphEdge>::empty()) + 1) as nat);
    lemma_comm_seq_ident(n, n as int);
    let cs = comm_seq(ident_map(n), n);
    assert(cs.len() == n);
    assert forall|v: usize| v < n implies #[trigger] cs.index_of(labels[v]) as usize
        == labels[v] by {
        assert(cs[labels[v] as int] == labels[v]);
        lemma_index_of_unique(cs, labels[v] as int);
    }
    assert(agg_edges(Seq::<GraphEdge>::empty(), ident_map(n), cs, 0) =~= Seq::<
        GraphEdge,
    >::empty());
    assert(compose_labels(labels, remap(ident_map(n), cs)) =~= labels);
}

/// Through all levels of an edge-free graph, the state stays edge-free with
/// the singleton labels.
proof fn lemma_engine_state_no_edges(n0: usize, k: nat)
    ensures
        engine_state(n0, Seq::<GraphEdge>::empty(), k).0 == n0,
        engine_state(n0, Seq::<GraphEdge>::empty(), k).1 == Seq::<GraphEdge>::empty(),
        engine_state(n0, Seq::<GraphEdge>::empty(), k).2 == ident_map(n0),
    decreases k,
{
    if k == 0 {
    } else {
        lemma_engine_state_no_edges(n0, (k - 1) as nat);
        lemma_level_next_empty(n0, ident_map(n0));
        assert(ident_map(n0).dom() =~= node_set(n0));
    }
}

/// On a fully disconnected graph — any number of nodes, no edges — every
/// node ends in its own singleton community: no edge evidence ever justifies
/// a move, at any level.
pub proof fn lemma_no_edges_all_singletons(n0: usize)
    ensures
        engine_result(n0, Seq::<GraphEdge>::empty()) == ident_map(n0),
{
    lemma_engine_state_no_edges(n0, LEVELS as nat);
}

/// Idempotence: the engine's result is a function of the node count and edge
/// sequence alone, so two runs over the same graph agree exactly — there is
/// no hidden randomness.
pub proof fn lemma_engine_deterministic(
    n0: usize,
    es0: Seq<GraphEdge>,
    r1: Map<usize, usize>,
    r2: Map<usize, usize>,
)
    requires
        r1 == engine_result(n0, es0),
        r2 == engine_result(n0, es0),
    ensures
        r1 == r2,
{
}

/// The coarse graph has exactly one node per distinct community identifier
/// of the partition it was built from.
pub proof fn lemma_coarse_node_count(p: Map<usize, usize>, n: usize)
    ensures
        comm_seq(p, n).to_set() == community_ids(p, n),
        comm_seq(p, n).len() == community_ids(p, n).len(),
        community_ids(p, n).finite(),
{
    broadcast use vstd::seq_lib::seq_to_set_is_finite;

    lemma_comm_seq_props(p, n as int);
    let cs = comm_seq(p, n);
    assert(cs.to_set() =~= community_ids(p, n));
    cs.unique_seq_to_set();
}

/// Among the first `i` edges, one intra-community edge of positive weight
/// already forces the inter-community weight strictly under the prefix's
/// total.
proof fn lemma_inter_weight_strict(es: Seq<GraphEdge>, p: Map<usize, usize>, i: int)
    requires
        0 <= i <= es.len(),
        exists|j: int|
            0 <= j < i && p[(#[trigger] es[j]).0] == p[es[j].1] && es[j].2 > 0,
    ensures
        inter_weight(es, p, i) < total_weight(es.take(i)),
    decreases i,
{
    let j0 = choose|j: int| 0 <= j < i && p[(#[trigger] es[j]).0] == p[es[j].1] && es[j].2 > 0;
    assert(es.take(i).drop_last() =~= es.take(i - 1));
    lemma_inter_weight_le(es, p, i - 1);
    if j0 < i - 1 {
        lemma_inter_weight_strict(es, p, i - 1);
    }
}

/// Weight conservation under coarsening: the coarse edges carry exactly the
/// inter-community weight — an edge whose endpoints share a community
/// contributes nothing — so the coarse total never exceeds the original
/// total, and is strictly below it as soon as one intra-community edge has
/// positive weight. (An intra-community edge of weight zero is also dropped,
/// but cannot make the inequality strict.)
pub proof fn lemma_weight_conservation(es: Seq<GraphEdge>, p: Map<usize, usize>, n: usize)
    requires
        total_weight(es) <= u64::MAX,
    ensures
        total_weight(agg_edges(es, p, comm_seq(p, n), es.len() as int)) == inter_weight(
            es,
            p,
            es.len() as int,
        ),
        total_weight(agg_edges(es, p, comm_seq(p, n), es.len() as int)) <= total_weight(es),
        (exists|j: int|
            0 <= j < es.len() && p[(#[trigger] es[j]).0] == p[es[j].1] && es[j].2 > 0)
            ==> total_weight(agg_edges(es, p, comm_seq(p, n), es.len() as int)) < total_weight(
            es,
        ),
{
    let cs = comm_seq(p, n);
    lemma_agg_weight(es, p, cs, es.len() as int);
    lemma_inter_weight_le(es, p, es.len() as int);
    assert(es.take(es.len() as int) =~= es);
    if exists|j: int|
        0 <= j < es.len() && p[(#[trigger] es[j]).0] == p[es[j].1] && es[j].2 > 0 {
        lemma_inter_weight_strict(es, p, es.len() as int);
    }
}

/// Reassigning one node changes the inter-community weight by at most the
/// weight it had towards its old community minus the weight it has towards
/// its new one.
proof fn lemma_inter_after_move(
    es: Seq<GraphEdge>,
    p: Map<usize, usize>,
    v: usize,
    b: usize,
    i: int,
)
    requires
        0 <= i <= es.len(),
        b != p[v],
    ensures
        inter_weight(es, p.insert(v, b), i) <= inter_weight(es, p, i) + weight_to(
            es.take(i),
            p,
            v,
            p[v],
        ) - weight_to(es.take(i), p, v, b),
    decreases i,
{
    if i > 0 {
        lemma_inter_after_move(es, p, v, b, i - 1);
        assert(es.take(i).drop_last() =~= es.take(i - 1));
    }
}

/// A neighbor scan only ever settles on a community whose gain is strictly
/// positive, unless it settles on "stay".
proof fn lemma_scan_best_gain(
    es: Seq<GraphEdge>,
    p: Map<usize, usize>,
    v: usize,
    cur: usize,
    i: int,
    bc: usize,
    bn: int,
)
    requires
        bn >= 0,
        bc != cur ==> gain_num(es, p, v, cur, bc) == bn && bn > 0,
    ensures
        scan_best(es, p, v, cur, i, bc, bn) != cur ==> gain_num(
            es,
            p,
            v,
            cur,
            scan_best(es, p, v, cur, i, bc, bn),
        ) > 0,
    decreases es.len() - i,
{
    if 0 <= i < es.len() {
        let e = es[i];
        if crate::model::touches(e, v) && p[crate::model::other_end(e, v)] != cur {
            let cand = p[crate::model::other_end(e, v)];
            let num = gain_num(es, p, v, cur, cand);
            if num > bn {
                lemma_scan_best_gain(es, p, v, cur, i + 1, cand, num);
            } else {
                lemma_scan_best_gain(es, p, v, cur, i + 1, bc, bn);
            }
        } else {
            lemma_scan_best_gain(es, p, v, cur, i + 1, bc, bn);
        }
    }
}

/// A pass either moves nothing and returns its input, or moves at least one
/// node and lowers the inter-community weight by at least one.
proof fn lemma_pass_stable_or_decreases(es: Seq<GraphEdge>, p: Map<usize, usize>, n: usize, i: int)
    requires
        0 <= i <= n,
    ensures
        !pass_from(es, p, n, i).1 ==> pass_from(es, p, n, i).0 == p,
        pass_from(es, p, n, i).1 ==> inter_weight(es, pass_from(es, p, n, i).0, es.len() as int)
            <= inter_weight(es, p, es.len() as int) - 1,
    decreases n - i,
{
    if i < n {
        let cur = p[i as usize];
        let b = best_move(es, p, i as usize);
        if b != cur {
            lemma_scan_best_gain(es, p, i as usize, cur, 0, cur, 0);
            assert(weight_to(es, p, i as usize, b) > weight_to(es, p, i as usize, cur));
            assert(es.take(es.len() as int) =~= es);
            lemma_inter_after_move(es, p, i as usize, b, es.len() as int);
            let p2 = p.insert(i as usize, b);
            assert(inter_weight(es, p2, es.len() as int) <= inter_weight(
                es,
                p,
                es.len() as int,
            ) - 1);
            lemma_pass_stable_or_decreases(es, p2, n, i + 1);
        } else {
            lemma_pass_stable_or_decreases(es, p, n, i + 1);
        }
    }
}

/// With fuel past the current inter-community weight, the mover ends on a
/// stable partition.
proof fn lemma_mover_stable_rec(es: Seq<GraphEdge>, p: Map<usize, usize>, n: usize, fuel: nat)
    requires
        fuel >= inter_weight(es, p, es.len() as int) + 1,
    ensures
        !pass_from(es, mover_from(es, p, n, fuel), n, 0).1,
    decreases fuel,
{
    lemma_inter_weight_le(es, p, es.len() as int);
    let r = pass_from(es, p, n, 0);
    lemma_pass_stable_or_decreases(es, p, n, 0);
    if r.1 {
        lemma_mover_stable_rec(es, r.0, n, (fuel - 1) as nat);
    }
}

/// The mover's pass ceiling never binds: every pass that moves a node lowers
/// the inter-community weight by at least one, so within total-weight-plus-
/// one passes the mover reaches — and returns — a partition on which one
/// further full pass would move nothing. This is the convergence condition
/// the local mover is defined by.
pub proof fn lemma_mover_reaches_fixpoint(es: Seq<GraphEdge>, p: Map<usize, usize>, n: usize)
    ensures
        !pass_from(es, mover_from(es, p, n, mover_fuel(es)), n, 0).1,
{
    lemma_inter_weight_le(es, p, es.len() as int);
    assert(es.take(es.len() as int) =~= es);
    lemma_mover_stable_rec(es, p, n, mover_fuel(es));
}

} // verus!
