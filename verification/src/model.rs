//! The mathematical model of the engine.
//!
//! A graph is a node count `n` (nodes are `0..n`) together with a sequence of
//! edges in insertion order; a partition is a total map from the node
//! identifiers to community identifiers. Every executable function of the
//! engine is specified against the functions here: a local-moving pass, the
//! mover loop, the first-seen community order, the coarsened edge sequence,
//! and the level loop that threads labels for the original nodes through all
//! coarsening steps.

use vstd::prelude::*;

verus! {

/// An edge as the engine sees it: (endpoint, endpoint, weight), in the
/// orientation it was added under.
pub type GraphEdge = (usize, usize, u64);

/// How many levels the engine runs: a hard cap, not a convergence check.
pub const LEVELS: usize = 10;

/// The node identifiers of a graph with `n` nodes.
pub open spec fn node_set(n: usize) -> Set<usize> {
    Set::new(|v: usize| v < n)
}

/// The singleton partition: every node is its own community.
pub open spec fn ident_map(n: usize) -> Map<usize, usize> {
    Map::new(|v: usize| v < n, |v: usize| v)
}

/// Whether `v` is an endpoint of `e`.
pub open spec fn touches(e: GraphEdge, v: usize) -> bool {
    e.0 == v || e.1 == v
}

/// The endpoint of `e` opposite to `v` (equal to `v` on a self-loop).
pub open spec fn other_end(e: GraphEdge, v: usize) -> usize {
    if e.0 == v {
        e.1
    } else {
        e.0
    }
}

/// Every edge endpoint names an existing node.
pub open spec fn edges_wf(es: Seq<GraphEdge>, n: usize) -> bool {
    forall|i: int|
        0 <= i < es.len() ==> (#[trigger] es[i]).0 < n && es[i].1 < n
}

/// A partition covers exactly the nodes `0..n`, and names communities by
/// node identifiers of the same graph.
pub open spec fn part_wf(p: Map<usize, usize>, n: usize) -> bool {
    &&& p.dom() == node_set(n)
    &&& forall|v: usize| v < n ==> #[trigger] p[v] < n
}

/// The sum of all edge weights.
pub open spec fn total_weight(es: Seq<GraphEdge>) -> int
    decreases es.len(),
{
    if es.len() == 0 {
        0
    } else {
        total_weight(es.drop_last()) + es.last().2
    }
}

/// The sum of the weights of all edges incident to `v`.
pub open spec fn incident_weight(es: Seq<GraphEdge>, v: usize) -> int
    decreases es.len(),
{
    if es.len() == 0 {
        0
    } else {
        incident_weight(es.drop_last(), v) + if touches(es.last(), v) {
            es.last().2 as int
        } else {
            0
        }
    }
}

/// The sum of the weights of the edges incident to `v` whose other endpoint
/// lies in community `c` under partition `p`.
pub open spec fn weight_to(es: Seq<GraphEdge>, p: Map<usize, usize>, v: usize, c: usize) -> int
    decreases es.len(),
{
    if es.len() == 0 {
        0
    } else {
        weight_to(es.drop_last(), p, v, c) + if touches(es.last(), v) && p[other_end(
            es.last(),
            v,
        )] == c {
            es.last().2 as int
        } else {
            0
        }
    }
}

/// The numerator of the gain of moving `v` from community `from` to `to`:
/// the gain itself is this over `incident_weight(es, v)`, and all candidates
/// for one node share that denominator, so comparisons go by the numerator.
pub open spec fn gain_num(
    es: Seq<GraphEdge>,
    p: Map<usize, usize>,
    v: usize,
    from: usize,
    to: usize,
) -> int {
    weight_to(es, p, v, to) - weight_to(es, p, v, from)
}

/// The neighbor scan of one node: walk the incident edges of `v` in edge
/// order from index `i` on, keeping the first candidate community whose gain
/// numerator strictly beats the best seen so far (initially 0, i.e. "stay").
pub open spec fn scan_best(
    es: Seq<GraphEdge>,
    p: Map<usize, usize>,
    v: usize,
    cur: usize,
    i: int,
    best_c: usize,
    best_num: int,
) -> usize
    decreases es.len() - i,
{
    if i < 0 || i >= es.len() {
        best_c
    } else {
        let e = es[i];
        if touches(e, v) && p[other_end(e, v)] != cur {
            let cand = p[other_end(e, v)];
            let num = gain_num(es, p, v, cur, cand);
            if num > best_num {
                scan_best(es, p, v, cur, i + 1, cand, num)
            } else {
                scan_best(es, p, v, cur, i + 1, best_c, best_num)
            }
        } else {
            scan_best(es, p, v, cur, i + 1, best_c, best_num)
        }
    }
}

/// The community node `v` moves to (or stays in) when scanned under `p`.
pub open spec fn best_move(es: Seq<GraphEdge>, p: Map<usize, usize>, v: usize) -> usize {
    scan_best(es, p, v, p[v], 0, p[v], 0)
}

/// One full pass of the local mover over nodes `i..n`, in identifier order;
/// returns the new partition and whether any node moved.
pub open spec fn pass_from(
    es: Seq<GraphEdge>,
    p: Map<usize, usize>,
    n: usize,
    i: int,
) -> (Map<usize, usize>, bool)
    decreases n - i,
{
    if i < 0 || i >= n {
        (p, false)
    } else {
        let b = best_move(es, p, i as usize);
        if b != p[i as usize] {
            let rest = pass_from(es, p.insert(i as usize, b), n, i + 1);
            (rest.0, true)
        } else {
            pass_from(es, p, n, i + 1)
        }
    }
}

/// The local mover: repeat full passes until one makes no move, or the fuel
/// runs out (a safety ceiling; each move raises the intra-community weight,
/// so `mover_fuel` passes always reach a quiet pass first).
pub open spec fn mover_from(
    es: Seq<GraphEdge>,
    p: Map<usize, usize>,
    n: usize,
    fuel: nat,
) -> Map<usize, usize>
    decreases fuel,
{
    if fuel == 0 {
        p
    } else {
        let r = pass_from(es, p, n, 0);
        if r.1 {
            mover_from(es, r.0, n, (fuel - 1) as nat)
        } else {
            r.0
        }
    }
}

/// The pass ceiling the engine runs the mover with.
pub open spec fn mover_fuel(es: Seq<GraphEdge>) -> nat {
    (total_weight(es) + 1) as nat
}

/// The distinct community identifiers of nodes `0..i`, in first-seen order.
pub open spec fn comm_seq_from(p: Map<usize, usize>, i: int) -> Seq<usize>
    decreases i,
{
    if i <= 0 {
        Seq::empty()
    } else {
        let s = comm_seq_from(p, i - 1);
        let c = p[(i - 1) as usize];
        if s.contains(c) {
            s
        } else {
            s.push(c)
        }
    }
}

/// The distinct community identifiers of a partition over `0..n`, in
/// first-seen order; the coarsened graph has one node per entry, and a
/// community's new node identifier is its position here.
pub open spec fn comm_seq(p: Map<usize, usize>, n: usize) -> Seq<usize> {
    comm_seq_from(p, n as int)
}

/// Whether `e` connects the unordered pair `{a, b}`.
pub open spec fn pair_matches(e: GraphEdge, a: usize, b: usize) -> bool {
    (e.0 == a && e.1 == b) || (e.0 == b && e.1 == a)
}

/// The first index in `acc` of an edge connecting the unordered pair
/// `{a, b}`, or `acc.len()` if there is none.
pub open spec fn find_pair(acc: Seq<GraphEdge>, a: usize, b: usize) -> int
    decreases acc.len(),
{
    if acc.len() == 0 {
        0
    } else if pair_matches(acc[0], a, b) {
        0
    } else {
        1 + find_pair(acc.subrange(1, acc.len() as int), a, b)
    }
}

/// Merge one inter-community edge into the coarse edge list: add its weight
/// onto the existing edge of the same unordered pair, else append it.
pub open spec fn agg_step(acc: Seq<GraphEdge>, na: usize, nb: usize, w: u64) -> Seq<GraphEdge> {
    let k = find_pair(acc, na, nb);
    if k < acc.len() {
        acc.update(k, (acc[k].0, acc[k].1, (acc[k].2 + w) as u64))
    } else {
        acc.push((na, nb, w))
    }
}

/// The coarsened edge sequence after processing the first `i` edges: edges
/// inside one community are dropped, edges between communities accumulate by
/// weight on the unordered pair of new node identifiers.
pub open spec fn agg_edges(
    es: Seq<GraphEdge>,
    p: Map<usize, usize>,
    cs: Seq<usize>,
    i: int,
) -> Seq<GraphEdge>
    decreases i,
{
    if i <= 0 {
        Seq::empty()
    } else {
        let acc = agg_edges(es, p, cs, i - 1);
        let e = es[i - 1];
        if p[e.0] == p[e.1] {
            acc
        } else {
            agg_step(acc, cs.index_of(p[e.0]) as usize, cs.index_of(p[e.1]) as usize, e.2)
        }
    }
}

/// Each community identifier mapped to its coarse node identifier (its
/// position in the first-seen order).
pub open spec fn comm_map(cs: Seq<usize>) -> Map<usize, usize> {
    Map::new(|c: usize| cs.contains(c), |c: usize| cs.index_of(c) as usize)
}

/// A partition rewritten to coarse node identifiers.
pub open spec fn remap(p: Map<usize, usize>, cs: Seq<usize>) -> Map<usize, usize> {
    Map::new(|v: usize| p.dom().contains(v), |v: usize| cs.index_of(p[v]) as usize)
}

/// Original-node labels pushed through one more relabelling.
pub open spec fn compose_labels(labels: Map<usize, usize>, r: Map<usize, usize>) -> Map<
    usize,
    usize,
> {
    Map::new(|v: usize| labels.dom().contains(v), |v: usize| r[labels[v]])
}

/// One level: run the mover from the singleton partition of the current
/// graph, coarsen, and push the original-node labels through the remapping.
pub open spec fn level_next(
    n: usize,
    es: Seq<GraphEdge>,
    labels: Map<usize, usize>,
) -> (usize, Seq<GraphEdge>, Map<usize, usize>) {
    let p = mover_from(es, ident_map(n), n, mover_fuel(es));
    let cs = comm_seq(p, n);
    (
        cs.len() as usize,
        agg_edges(es, p, cs, es.len() as int),
        compose_labels(labels, remap(p, cs)),
    )
}

/// The engine state after `k` levels: current node count, current edge
/// sequence, and the labels of the original nodes in the current graph.
pub open spec fn engine_state(n0: usize, es0: Seq<GraphEdge>, k: nat) -> (
    usize,
    Seq<GraphEdge>,
    Map<usize, usize>,
)
    decreases k,
{
    if k == 0 {
        (n0, es0, ident_map(n0))
    } else {
        let prev = engine_state(n0, es0, (k - 1) as nat);
        level_next(prev.0, prev.1, prev.2)
    }
}

/// What the engine returns: each original node mapped to the node that
/// stands for its community after all levels.
pub open spec fn engine_result(n0: usize, es0: Seq<GraphEdge>) -> Map<usize, usize> {
    engine_state(n0, es0, LEVELS as nat).2
}

/// The distinct community identifiers a partition assigns to the nodes
/// `0..n`.
pub open spec fn community_ids(p: Map<usize, usize>, n: usize) -> Set<usize> {
    Set::new(|c: usize| exists|v: usize| v < n && #[trigger] p[v] == c)
}

/// All the weight sums are non-negative, and each is bounded by the next
/// wider one.
pub proof fn lemma_weight_bounds(es: Seq<GraphEdge>, p: Map<usize, usize>, v: usize, c: usize)
    ensures
        0 <= weight_to(es, p, v, c) <= incident_weight(es, v),
        0 <= incident_weight(es, v) <= total_weight(es),
    decreases es.len(),
{
    if es.len() > 0 {
        lemma_weight_bounds(es.drop_last(), p, v, c);
    }
}

/// A prefix of the edges never weighs more than the whole.
pub proof fn lemma_total_weight_take(es: Seq<GraphEdge>, i: int)
    requires
        0 <= i <= es.len(),
    ensures
        total_weight(es.take(i)) <= total_weight(es),
    decreases es.len() - i,
{
    if i == es.len() {
        assert(es.take(i) =~= es);
    } else {
        assert(es.take(i + 1).drop_last() =~= es.take(i));
        lemma_weight_bounds(es.take(i + 1), Map::empty(), 0, 0);
        lemma_total_weight_take(es, i + 1);
    }
}

/// An element of a contained needle exists, so `index_of` lands in range and
/// on the needle.
pub proof fn lemma_index_of_in_range(cs: Seq<usize>, c: usize)
    requires
        cs.contains(c),
    ensures
        0 <= cs.index_of(c) < cs.len(),
        cs[cs.index_of(c)] == c,
{
    assert(exists|i: int| 0 <= i < cs.len() && cs[i] == c);
}

/// In a duplicate-free sequence, `index_of` inverts indexing.
pub proof fn lemma_index_of_unique(cs: Seq<usize>, j: int)
    requires
        cs.no_duplicates(),
        0 <= j < cs.len(),
    ensures
        cs.index_of(cs[j]) == j,
{
    assert(cs.contains(cs[j]));
    lemma_index_of_in_range(cs, cs[j]);
}

/// The first-seen community order has no duplicates, holds exactly the
/// community identifiers of the first `i` nodes, and its length lies between
/// 1 (as soon as `i` is at least 1) and `i`.
pub proof fn lemma_comm_seq_props(p: Map<usize, usize>, i: int)
    requires
        i >= 0,
    ensures
        comm_seq_from(p, i).no_duplicates(),
        forall|c: usize|
            comm_seq_from(p, i).contains(c) <==> exists|v: usize| v < i && #[trigger] p[v] == c,
        comm_seq_from(p, i).len() <= i,
        i >= 1 ==> comm_seq_from(p, i).len() >= 1,
    decreases i,
{
    if i > 0 {
        lemma_comm_seq_props(p, i - 1);
        let s = comm_seq_from(p, i - 1);
        let c = p[(i - 1) as usize];
        let s2 = comm_seq_from(p, i);
        if s.contains(c) {
            assert forall|x: usize| s2.contains(x) implies exists|v: usize|
                v < i && #[trigger] p[v] == x by {
                let v0 = choose|v: usize| v < i - 1 && #[trigger] p[v] == x;
                assert(v0 < i && p[v0] == x);
            }
            assert forall|x: usize| (exists|v: usize| v < i && #[trigger] p[v] == x) implies
                s2.contains(x) by {
                let v0 = choose|v: usize| v < i && #[trigger] p[v] == x;
                if v0 < i - 1 {
                    assert(s.contains(x));
                } else {
                    assert(x == c);
                }
            }
        } else {
            assert(s2 == s.push(c));
            assert forall|a: int, b: int|
                0 <= a < s2.len() && 0 <= b < s2.len() && a != b implies s2[a] != s2[b] by {
                if a < s.len() && b < s.len() {
                    assert(s2[a] == s[a] && s2[b] == s[b]);
                } else if a == s.len() {
                    assert(s2[a] == c && s2[b] == s[b]);
                    assert(!s.contains(c));
                } else {
                    assert(s2[b] == c && s2[a] == s[a]);
                    assert(!s.contains(c));
                }
            }
            assert forall|x: usize| s2.contains(x) implies exists|v: usize|
                v < i && #[trigger] p[v] == x by {
                let k = choose|k: int| 0 <= k < s2.len() && s2[k] == x;
                if k < s.len() {
                    assert(s[k] == x);
                    assert(s.contains(x));
                    let v0 = choose|v: usize| v < i - 1 && #[trigger] p[v] == x;
                    assert(v0 < i && p[v0] == x);
                } else {
                    assert(x == c);
                    assert(((i - 1) as usize) < i && p[(i - 1) as usize] == x);
                }
            }
            assert forall|x: usize| (exists|v: usize| v < i && #[trigger] p[v] == x) implies
                s2.contains(x) by {
                let v0 = choose|v: usize| v < i && #[trigger] p[v] == x;
                if v0 < i - 1 {
                    assert(s.contains(x));
                    let k = choose|k: int| 0 <= k < s.len() && s[k] == x;
                    assert(s2[k] == x);
                } else {
                    assert(s2[s.len() as int] == x);
                }
            }
        }
    }
}

/// Updating one edge's weight changes the total by exactly the difference.
pub proof fn lemma_total_weight_update(acc: Seq<GraphEdge>, k: int, e: GraphEdge)
    requires
        0 <= k < acc.len(),
    ensures
        total_weight(acc.update(k, e)) == total_weight(acc) - acc[k].2 + e.2,
    decreases acc.len(),
{
    let u = acc.update(k, e);
    if k == acc.len() - 1 {
        assert(u.drop_last() =~= acc.drop_last());
    } else {
        assert(u.drop_last() =~= acc.drop_last().update(k, e));
        lemma_total_weight_update(acc.drop_last(), k, e);
    }
}

/// One edge never weighs more than the whole list.
pub proof fn lemma_elem_weight_le_total(acc: Seq<GraphEdge>, k: int)
    requires
        0 <= k < acc.len(),
    ensures
        acc[k].2 <= total_weight(acc),
    decreases acc.len(),
{
    if k == acc.len() - 1 {
        lemma_weight_bounds(acc.drop_last(), Map::empty(), 0, 0);
    } else {
        lemma_elem_weight_le_total(acc.drop_last(), k);
    }
}

/// `find_pair` names the first index whose edge connects the unordered pair,
/// or the length when no edge does.
pub proof fn lemma_find_pair_props(acc: Seq<GraphEdge>, a: usize, b: usize)
    ensures
        0 <= find_pair(acc, a, b) <= acc.len(),
        find_pair(acc, a, b) < acc.len() ==> pair_matches(acc[find_pair(acc, a, b)], a, b),
        forall|j: int| 0 <= j < find_pair(acc, a, b) ==> !pair_matches(#[trigger] acc[j], a, b),
    decreases acc.len(),
{
    if acc.len() > 0 && !pair_matches(acc[0], a, b) {
        let rest = acc.subrange(1, acc.len() as int);
        lemma_find_pair_props(rest, a, b);
        assert(forall|j: int| 1 <= j < acc.len() ==> acc[j] == rest[j - 1]);
    }
}

/// The summed weight of the inter-community edges among the first `i`.
pub open spec fn inter_weight(es: Seq<GraphEdge>, p: Map<usize, usize>, i: int) -> int
    decreases i,
{
    if i <= 0 {
        0
    } else {
        inter_weight(es, p, i - 1) + if p[es[i - 1].0] != p[es[i - 1].1] {
            es[i - 1].2 as int
        } else {
            0
        }
    }
}

/// The inter-community weight of a prefix is non-negative and never exceeds
/// the prefix's whole weight.
pub proof fn lemma_inter_weight_le(es: Seq<GraphEdge>, p: Map<usize, usize>, i: int)
    requires
        0 <= i <= es.len(),
    ensures
        0 <= inter_weight(es, p, i) <= total_weight(es.take(i)),
    decreases i,
{
    if i > 0 {
        lemma_inter_weight_le(es, p, i - 1);
        assert(es.take(i).drop_last() =~= es.take(i - 1));
    }
}

/// Coarsening conserves exactly the inter-community weight: the coarse edge
/// list after `i` original edges weighs just what the inter-community edges
/// among them weigh.
pub proof fn lemma_agg_weight(es: Seq<GraphEdge>, p: Map<usize, usize>, cs: Seq<usize>, i: int)
    requires
        0 <= i <= es.len(),
        total_weight(es) <= u64::MAX,
    ensures
        total_weight(agg_edges(es, p, cs, i)) == inter_weight(es, p, i),
    decreases i,
{
    if i > 0 {
        lemma_agg_weight(es, p, cs, i - 1);
        lemma_inter_weight_le(es, p, i - 1);
        lemma_inter_weight_le(es, p, i);
        lemma_total_weight_take(es, i);
        assert(es.take(i).drop_last() =~= es.take(i - 1));
        let acc = agg_edges(es, p, cs, i - 1);
        let e = es[i - 1];
        if p[e.0] != p[e.1] {
            let na = cs.index_of(p[e.0]) as usize;
            let nb = cs.index_of(p[e.1]) as usize;
            let k = find_pair(acc, na, nb);
            lemma_find_pair_props(acc, na, nb);
            if k < acc.len() {
                lemma_elem_weight_le_total(acc, k);
                assert(acc[k].2 + e.2 <= u64::MAX);
                lemma_total_weight_update(
                    acc,
                    k,
                    (acc[k].0, acc[k].1, (acc[k].2 + e.2) as u64),
                );
            } else {
                assert(agg_step(acc, na, nb, e.2).drop_last() =~= acc);
            }
        }
    }
}

} // verus!
