//! Layer assignment: which layer (rank) of the drawing each node goes to.
//!
//! Nodes are settled in topological order (Kahn's method): a node is settled
//! once every node with an edge into it is settled.  The rank of a node is one
//! more than the highest rank among the settled nodes with an edge into it, or
//! 0 when there is none.  Nodes on or behind a cycle are never settled; they
//! take their rank from their settled predecessors alone.  Within a layer the
//! nodes are ordered by id.

use vstd::prelude::*;
use crate::model::{DiagramIR, EdgeView, NodeView};
use crate::text::{
    add_all, add_unique_id, distinct_ids, first_difference_less, index_from, insert_sorted,
    lemma_add_all_distinct, lemma_str_less_lexicographic, proper_prefix, strictly_sorted, str_less,
};

verus! {

// ════════════════════════════ graph ranks ════════════════════════════

/// Edges as pairs of node indices.
pub type EdgeList = Seq<(int, int)>;

/// Every endpoint is one of the `n` nodes.
pub open spec fn edges_in_range(es: EdgeList, n: int) -> bool {
    forall|i: int| 0 <= i < es.len() ==> 0 <= (#[trigger] es[i]).0 < n && 0 <= es[i].1 < n
}

/// Every node with an edge into `v` is settled.
pub open spec fn preds_settled(es: EdgeList, settled: Seq<bool>, v: int) -> bool {
    forall|i: int| 0 <= i < es.len() && (#[trigger] es[i]).1 == v ==> settled[es[i].0]
}

/// One more than the highest rank among the settled nodes with an edge into
/// `v` (over the edges `es`), or 0.
pub open spec fn incoming_rank(es: EdgeList, settled: Seq<bool>, rank: Seq<nat>, v: int) -> nat
    decreases es.len(),
{
    if es.len() == 0 {
        0
    } else {
        let m = incoming_rank(es.drop_last(), settled, rank, v);
        let e = es.last();
        if e.1 == v && settled[e.0] && rank[e.0] + 1 > m {
            rank[e.0] + 1
        } else {
            m
        }
    }
}

/// `order` lists the settled nodes, each once, each after every node with an
/// edge into it.
pub open spec fn settle_order(es: EdgeList, n: int, settled: Seq<bool>, order: Seq<int>) -> bool {
    &&& forall|k: int| 0 <= k < order.len() ==> 0 <= #[trigger] order[k] < n
    &&& forall|a: int, b: int| 0 <= a < b < order.len() ==> order[a] != order[b]
    &&& forall|v: int| 0 <= v < n ==> (settled[v] <==> order.contains(v))
    &&& forall|k: int, i: int|
        0 <= k < order.len() && 0 <= i < es.len() && (#[trigger] es[i]).1 == #[trigger] order[k]
            ==> order.take(k).contains(es[i].0)
}

/// `settled` and `rank` are what topological settling gives for the graph of
/// `n` nodes and the edges `es`.
pub open spec fn is_ranking(es: EdgeList, n: int, settled: Seq<bool>, rank: Seq<nat>) -> bool {
    &&& settled.len() == n
    &&& rank.len() == n
    &&& forall|v: int| 0 <= v < n ==> #[trigger] rank[v] == incoming_rank(es, settled, rank, v)
    &&& forall|v: int| 0 <= v < n && !settled[v] ==> !#[trigger] preds_settled(es, settled, v)
    &&& exists|order: Seq<int>| settle_order(es, n, settled, order)
}


/// `incoming_rank` reads, for the edges into `v`, only whether their sources
/// are settled and the ranks of the settled ones.
pub proof fn lemma_incoming_rank_congruent(
    es: EdgeList,
    s1: Seq<bool>,
    r1: Seq<nat>,
    s2: Seq<bool>,
    r2: Seq<nat>,
    v: int,
)
    requires
        forall|i: int|
            0 <= i < es.len() && (#[trigger] es[i]).1 == v ==> s1[es[i].0] == s2[es[i].0] && (
            s1[es[i].0] ==> r1[es[i].0] == r2[es[i].0]),
    ensures
        incoming_rank(es, s1, r1, v) == incoming_rank(es, s2, r2, v),
    decreases es.len(),
{
    if es.len() > 0 {
        let d = es.drop_last();
        assert forall|i: int| 0 <= i < d.len() && (#[trigger] d[i]).1 == v implies s1[d[i].0]
            == s2[d[i].0] && (s1[d[i].0] ==> r1[d[i].0] == r2[d[i].0]) by {
            assert(d[i] == es[i]);
        }
        lemma_incoming_rank_congruent(d, s1, r1, s2, r2, v);
        assert(es.last() == es[es.len() - 1]);
    }
}

/// Every settled source of an edge into `v` ranks below `v`'s incoming rank.
pub proof fn lemma_incoming_rank_above(es: EdgeList, s: Seq<bool>, r: Seq<nat>, v: int, i: int)
    requires
        0 <= i < es.len(),
        es[i].1 == v,
        s[es[i].0],
    ensures
        incoming_rank(es, s, r, v) >= r[es[i].0] + 1,
    decreases es.len(),
{
    if i < es.len() - 1 {
        let d = es.drop_last();
        assert(d[i] == es[i]);
        lemma_incoming_rank_above(d, s, r, v, i);
    }
}

/// The incoming rank is at most `b` when every settled source of an edge into
/// `v` ranks below `b`.
pub proof fn lemma_incoming_rank_at_most(es: EdgeList, s: Seq<bool>, r: Seq<nat>, v: int, b: nat)
    requires
        forall|i: int| 0 <= i < es.len() && (#[trigger] es[i]).1 == v && s[es[i].0] ==> r[es[i].0] < b,
    ensures
        incoming_rank(es, s, r, v) <= b,
    decreases es.len(),
{
    if es.len() > 0 {
        let d = es.drop_last();
        assert forall|i: int| 0 <= i < d.len() && (#[trigger] d[i]).1 == v && s[d[i].0] implies r[d[i].0]
            < b by {
            assert(d[i] == es[i]);
        }
        lemma_incoming_rank_at_most(d, s, r, v, b);
        assert(es.last() == es[es.len() - 1]);
    }
}

/// The number of settled nodes.
pub open spec fn count_settled(s: Seq<bool>) -> nat
    decreases s.len(),
{
    if s.len() == 0 {
        0
    } else {
        count_settled(s.drop_last()) + if s.last() {
            1nat
        } else {
            0nat
        }
    }
}

proof fn lemma_count_settled_bound(s: Seq<bool>)
    ensures
        count_settled(s) <= s.len(),
    decreases s.len(),
{
    if s.len() > 0 {
        lemma_count_settled_bound(s.drop_last());
    }
}

proof fn lemma_count_settled_update(s: Seq<bool>, v: int)
    requires
        0 <= v < s.len(),
        !s[v],
    ensures
        count_settled(s.update(v, true)) == count_settled(s) + 1,
    decreases s.len(),
{
    let t = s.update(v, true);
    if v == s.len() - 1 {
        assert(t.drop_last() =~= s.drop_last());
    } else {
        assert(t.drop_last() =~= s.drop_last().update(v, true));
        lemma_count_settled_update(s.drop_last(), v);
    }
}

proof fn lemma_count_settled_none(s: Seq<bool>)
    requires
        forall|v: int| 0 <= v < s.len() ==> !s[v],
    ensures
        count_settled(s) == 0,
    decreases s.len(),
{
    if s.len() > 0 {
        lemma_count_settled_none(s.drop_last());
    }
}

/// The edges of a list of index pairs.
pub open spec fn edge_pairs(es: Seq<(usize, usize)>) -> EdgeList {
    es.map_values(|e: (usize, usize)| (e.0 as int, e.1 as int))
}

/// The ranks as numbers.
pub open spec fn rank_values(r: Seq<usize>) -> Seq<nat> {
    r.map_values(|x: usize| x as nat)
}

fn compute_incoming_rank(edges: &Vec<(usize, usize)>, settled: &Vec<bool>, rank: &Vec<usize>, v: usize, Ghost(bound): Ghost<nat>) -> (m: usize)
    requires
        settled.len() == rank.len(),
        edges_in_range(edge_pairs(edges@), settled.len() as int),
        bound <= usize::MAX,
        forall|i: int|
            0 <= i < edges.len() && (#[trigger] edges@[i]).1 == v && settled@[edges@[i].0 as int]
                ==> rank@[edges@[i].0 as int] < bound,
    ensures
        m as nat == incoming_rank(edge_pairs(edges@), settled@, rank_values(rank@), v as int),
{
    let ghost es = edge_pairs(edges@);
    let ghost rv = rank_values(rank@);
    let mut m: usize = 0;
    let mut i: usize = 0;
    while i < edges.len()
        invariant
            0 <= i <= edges.len(),
            es == edge_pairs(edges@),
            rv == rank_values(rank@),
            settled.len() == rank.len(),
            edges_in_range(es, settled.len() as int),
            bound <= usize::MAX,
            forall|j: int|
                0 <= j < edges.len() && (#[trigger] edges@[j]).1 == v && settled@[edges@[j].0 as int]
                    ==> rank@[edges@[j].0 as int] < bound,
            m as nat == incoming_rank(es.take(i as int), settled@, rv, v as int),
        decreases edges.len() - i,
    {
        assert(es.take(i + 1).drop_last() =~= es.take(i as int));
        assert(es.take(i + 1).last() == es[i as int]);
        assert(es[i as int] == (edges@[i as int].0 as int, edges@[i as int].1 as int));
        let (u, w) = edges[i];
        assert(0 <= es[i as int].0 < settled.len());
        if w == v && settled[u] && rank[u] + 1 > m {
            m = rank[u] + 1;
        }
        i = i + 1;
    }
    assert(es.take(edges.len() as int) =~= es);
    m
}

fn all_preds_settled(edges: &Vec<(usize, usize)>, settled: &Vec<bool>, v: usize) -> (b: bool)
    requires
        edges_in_range(edge_pairs(edges@), settled.len() as int),
    ensures
        b == preds_settled(edge_pairs(edges@), settled@, v as int),
{
    let ghost es = edge_pairs(edges@);
    let mut i: usize = 0;
    while i < edges.len()
        invariant
            0 <= i <= edges.len(),
            es == edge_pairs(edges@),
            edges_in_range(es, settled.len() as int),
            forall|j: int| 0 <= j < i && (#[trigger] es[j]).1 == v ==> settled@[es[j].0],
        decreases edges.len() - i,
    {
        let (u, w) = edges[i];
        assert(es[i as int] == (u as int, w as int));
        if w == v && !settled[u] {
            return false;
        }
        i = i + 1;
    }
    true
}


/// Settles the nodes of a graph of `n` nodes in topological order and ranks
/// them (see the module documentation).
pub fn settle_ranks(n: usize, edges: &Vec<(usize, usize)>) -> (r: (Vec<bool>, Vec<usize>))
    requires
        edges_in_range(edge_pairs(edges@), n as int),
    ensures
        is_ranking(edge_pairs(edges@), n as int, r.0@, rank_values(r.1@)),
{
    let ghost es = edge_pairs(edges@);
    let mut settled: Vec<bool> = Vec::new();
    let mut rank: Vec<usize> = Vec::new();
    let mut k: usize = 0;
    while k < n
        invariant
            0 <= k <= n,
            settled.len() == k,
            rank.len() == k,
            forall|v: int| 0 <= v < k ==> !settled@[v] && rank@[v] == 0,
        decreases n - k,
    {
        settled.push(false);
        rank.push(0);
        k = k + 1;
    }
    let ghost mut order: Seq<int> = seq![];
    assert(settle_order(es, n as int, settled@, order));
    proof {
        lemma_count_settled_none(settled@);
    }
    loop
        invariant
            es == edge_pairs(edges@),
            edges_in_range(es, n as int),
            settled.len() == n,
            rank.len() == n,
            order.len() == count_settled(settled@),
            order.len() <= n,
            settle_order(es, n as int, settled@, order),
            forall|v: int| 0 <= v < n && settled@[v] ==> #[trigger] rank_values(rank@)[v]
                == incoming_rank(es, settled@, rank_values(rank@), v),
            forall|v: int| 0 <= v < n && settled@[v] ==> #[trigger] rank@[v] < order.len(),
            forall|v: int| 0 <= v < n && settled@[v] ==> #[trigger] preds_settled(es, settled@, v),
        ensures
            forall|w: int| 0 <= w < n && !settled@[w] ==> !#[trigger] preds_settled(es, settled@, w),
        decreases n - order.len(),
    {
        let ghost start_len = order.len();
        let mut changed = false;
        let mut v: usize = 0;
        while v < n
            invariant
                es == edge_pairs(edges@),
                edges_in_range(es, n as int),
                0 <= v <= n,
                settled.len() == n,
                rank.len() == n,
                start_len <= order.len() <= n,
                order.len() == count_settled(settled@),
                changed <==> order.len() > start_len,
                settle_order(es, n as int, settled@, order),
                forall|w: int| 0 <= w < n && settled@[w] ==> #[trigger] rank_values(rank@)[w]
                    == incoming_rank(es, settled@, rank_values(rank@), w),
                forall|w: int| 0 <= w < n && settled@[w] ==> #[trigger] rank@[w] < order.len(),
                forall|w: int| 0 <= w < n && settled@[w] ==> #[trigger] preds_settled(es, settled@, w),
                !changed ==> forall|w: int|
                    0 <= w < v && !settled@[w] ==> !#[trigger] preds_settled(es, settled@, w),
            decreases n - v,
        {
            if !settled[v] && all_preds_settled(edges, &settled, v) {
                let ghost s0 = settled@;
                let ghost r0 = rank_values(rank@);
                proof {
                    assert forall|i: int|
                        0 <= i < edges.len() && (#[trigger] edges@[i]).1 == v && settled@[edges@[i].0 as int]
                            implies rank@[edges@[i].0 as int] < order.len() by {
                        assert(es[i] == (edges@[i].0 as int, edges@[i].1 as int));
                    }
                }
                let x = compute_incoming_rank(edges, &settled, &rank, v, Ghost(order.len()));
                proof {
                    assert forall|i: int|
                        0 <= i < es.len() && (#[trigger] es[i]).1 == v as int && s0[es[i].0] implies r0[es[i].0]
                            < order.len() by {
                        assert(es[i] == (edges@[i].0 as int, edges@[i].1 as int));
                    }
                    lemma_incoming_rank_at_most(es, s0, r0, v as int, order.len());
                }
                proof {
                    lemma_count_settled_update(settled@, v as int);
                    lemma_count_settled_bound(settled@.update(v as int, true));
                }
                settled.set(v, true);
                rank.set(v, x);
                proof {
                    let s1 = settled@;
                    let r1 = rank_values(rank@);
                    assert(s1 == s0.update(v as int, true));
                    assert(r1 =~= r0.update(v as int, x as nat));
                    // the settled nodes keep their incoming ranks
                    assert forall|w: int| 0 <= w < n && s1[w] implies #[trigger] r1[w] == incoming_rank(
                        es,
                        s1,
                        r1,
                        w,
                    ) by {
                        if w == v {
                            assert forall|i: int| 0 <= i < es.len() && (#[trigger] es[i]).1 == w implies s0[es[i].0]
                                == s1[es[i].0] && (s0[es[i].0] ==> r0[es[i].0] == r1[es[i].0]) by {
                                assert(s0[es[i].0]);
                            }
                            lemma_incoming_rank_congruent(es, s0, r0, s1, r1, w);
                        } else {
                            assert(s0[w]);
                            assert(preds_settled(es, s0, w));
                            assert forall|i: int| 0 <= i < es.len() && (#[trigger] es[i]).1 == w implies s0[es[i].0]
                                == s1[es[i].0] && (s0[es[i].0] ==> r0[es[i].0] == r1[es[i].0]) by {
                                assert(s0[es[i].0]);
                            }
                            lemma_incoming_rank_congruent(es, s0, r0, s1, r1, w);
                        }
                    }
                    assert forall|w: int| 0 <= w < n && s1[w] implies #[trigger] preds_settled(es, s1, w) by {
                        if w != v {
                            assert(preds_settled(es, s0, w));
                        }
                    }
                    let o1 = order.push(v as int);
                    assert(o1.take(order.len() as int) =~= order);
                    assert forall|u: int| 0 <= u < n implies (s1[u] <==> o1.contains(u)) by {
                        if u == v {
                            assert(o1[order.len() as int] == u);
                        } else if s1[u] {
                            let j = choose|j: int| 0 <= j < order.len() && order[j] == u;
                            assert(o1[j] == u);
                        } else if o1.contains(u) {
                            let j = choose|j: int| 0 <= j < o1.len() && o1[j] == u;
                            assert(order[j] == u);
                        }
                    }
                    assert forall|a: int, b: int| 0 <= a < b < o1.len() implies o1[a] != o1[b] by {
                        if b == order.len() {
                            assert(s0[order[a]]);
                        }
                    }
                    assert forall|kk: int, i: int|
                        0 <= kk < o1.len() && 0 <= i < es.len() && (#[trigger] es[i]).1 == #[trigger] o1[kk]
                            implies o1.take(kk).contains(es[i].0) by {
                        if kk == order.len() {
                            assert(s0[es[i].0]);
                            assert(order.contains(es[i].0));
                        } else {
                            assert(o1[kk] == order[kk]);
                            assert(order.take(kk).contains(es[i].0));
                            assert(o1.take(kk) =~= order.take(kk));
                        }
                    }
                    assert(settle_order(es, n as int, s1, o1));
                    order = o1;
                }
                changed = true;
            }
            v = v + 1;
        }
        if !changed {
            break;
        }
    }
    // the nodes left unsettled take their rank from their settled predecessors
    let ghost settled_final = settled@;
    let ghost rank_settled = rank_values(rank@);
    let mut v: usize = 0;
    while v < n
        invariant
            es == edge_pairs(edges@),
            edges_in_range(es, n as int),
            0 <= v <= n,
            settled@ == settled_final,
            settled.len() == n,
            rank.len() == n,
            rank_settled.len() == n,
            order.len() <= n,
            settle_order(es, n as int, settled@, order),
            forall|w: int| 0 <= w < n && settled@[w] ==> rank_values(rank@)[w] == rank_settled[w],
            forall|w: int| 0 <= w < n && settled@[w] ==> #[trigger] rank_settled[w] == incoming_rank(
                es,
                settled@,
                rank_settled,
                w,
            ),
            forall|w: int| 0 <= w < n && settled@[w] ==> #[trigger] rank@[w] < order.len(),
            forall|w: int| 0 <= w < n && !settled@[w] ==> !#[trigger] preds_settled(es, settled@, w),
            forall|w: int| 0 <= w < v && !settled@[w] ==> #[trigger] rank_values(rank@)[w]
                == incoming_rank(es, settled@, rank_settled, w),
        decreases n - v,
    {
        if !settled[v] {
            proof {
                assert forall|i: int|
                    0 <= i < edges.len() && (#[trigger] edges@[i]).1 == v && settled@[edges@[i].0 as int]
                        implies rank@[edges@[i].0 as int] < order.len() by {
                    assert(es[i] == (edges@[i].0 as int, edges@[i].1 as int));
                }
                assert forall|i: int| 0 <= i < es.len() && (#[trigger] es[i]).1 == v as int implies settled@[es[i].0]
                    == settled@[es[i].0] && (settled@[es[i].0] ==> rank_values(rank@)[es[i].0]
                    == rank_settled[es[i].0]) by {}
                lemma_incoming_rank_congruent(es, settled@, rank_values(rank@), settled@, rank_settled, v as int);
            }
            let x = compute_incoming_rank(edges, &settled, &rank, v, Ghost(order.len()));
            let ghost r0 = rank_values(rank@);
            rank.set(v, x);
            assert(rank_values(rank@) =~= r0.update(v as int, x as nat));
        }
        v = v + 1;
    }
    proof {
        let rv = rank_values(rank@);
        assert forall|w: int| 0 <= w < n implies #[trigger] rv[w] == incoming_rank(es, settled@, rv, w) by {
            if settled@[w] {
                assert(rv[w] == rank_settled[w]);
            }
            assert forall|i: int| 0 <= i < es.len() && (#[trigger] es[i]).1 == w implies settled@[es[i].0]
                == settled@[es[i].0] && (settled@[es[i].0] ==> rv[es[i].0] == rank_settled[es[i].0]) by {}
            lemma_incoming_rank_congruent(es, settled@, rv, settled@, rank_settled, w);
        }
    }
    (settled, rank)
}


// ════════════════════════════ laws of ranking ════════════════════════════

proof fn lemma_order_prefix_settled(
    es: EdgeList,
    n: int,
    s1: Seq<bool>,
    o1: Seq<int>,
    s2: Seq<bool>,
    k: int,
)
    requires
        settle_order(es, n, s1, o1),
        s2.len() == n,
        forall|v: int| 0 <= v < n && !s2[v] ==> !#[trigger] preds_settled(es, s2, v),
        0 <= k <= o1.len(),
    ensures
        forall|j: int| 0 <= j < k ==> s2[#[trigger] o1[j]],
    decreases k,
{
    if k > 0 {
        lemma_order_prefix_settled(es, n, s1, o1, s2, k - 1);
        let v = o1[k - 1];
        assert forall|i: int| 0 <= i < es.len() && (#[trigger] es[i]).1 == v implies s2[es[i].0] by {
            assert(o1.take(k - 1).contains(es[i].0));
            let j = choose|j: int| 0 <= j < k - 1 && #[trigger] o1.take(k - 1)[j] == es[i].0;
            assert(o1[j] == es[i].0);
        }
        assert(preds_settled(es, s2, v));
    }
}

proof fn lemma_order_prefix_ranks(
    es: EdgeList,
    n: int,
    s: Seq<bool>,
    o: Seq<int>,
    r1: Seq<nat>,
    r2: Seq<nat>,
    k: int,
)
    requires
        settle_order(es, n, s, o),
        s.len() == n,
        r1.len() == n,
        r2.len() == n,
        edges_in_range(es, n),
        forall|v: int| 0 <= v < n ==> #[trigger] r1[v] == incoming_rank(es, s, r1, v),
        forall|v: int| 0 <= v < n ==> #[trigger] r2[v] == incoming_rank(es, s, r2, v),
        0 <= k <= o.len(),
    ensures
        forall|j: int| 0 <= j < k ==> r1[#[trigger] o[j]] == r2[o[j]],
    decreases k,
{
    if k > 0 {
        lemma_order_prefix_ranks(es, n, s, o, r1, r2, k - 1);
        let v = o[k - 1];
        assert forall|i: int| 0 <= i < es.len() && (#[trigger] es[i]).1 == v implies s[es[i].0]
            == s[es[i].0] && (s[es[i].0] ==> r1[es[i].0] == r2[es[i].0]) by {
            assert(o.take(k - 1).contains(es[i].0));
            let j = choose|j: int| 0 <= j < k - 1 && #[trigger] o.take(k - 1)[j] == es[i].0;
            assert(o[j] == es[i].0);
        }
        lemma_incoming_rank_congruent(es, s, r1, s, r2, v);
    }
}

/// The layering is a function of the graph: two rankings of the same nodes
/// and edges settle the same nodes and give them the same ranks.
pub proof fn lemma_ranking_unique(
    es: EdgeList,
    n: int,
    s1: Seq<bool>,
    r1: Seq<nat>,
    s2: Seq<bool>,
    r2: Seq<nat>,
)
    requires
        edges_in_range(es, n),
        is_ranking(es, n, s1, r1),
        is_ranking(es, n, s2, r2),
    ensures
        s1 == s2,
        r1 == r2,
{
    let o1 = choose|o: Seq<int>| settle_order(es, n, s1, o);
    let o2 = choose|o: Seq<int>| settle_order(es, n, s2, o);
    lemma_order_prefix_settled(es, n, s1, o1, s2, o1.len() as int);
    lemma_order_prefix_settled(es, n, s2, o2, s1, o2.len() as int);
    assert forall|v: int| 0 <= v < n implies s1[v] == s2[v] by {
        if s1[v] {
            let j = choose|j: int| 0 <= j < o1.len() && o1[j] == v;
            assert(s2[o1[j]]);
        }
        if s2[v] {
            let j = choose|j: int| 0 <= j < o2.len() && o2[j] == v;
            assert(s1[o2[j]]);
        }
    }
    assert(s1 =~= s2);
    lemma_order_prefix_ranks(es, n, s1, o1, r1, r2, o1.len() as int);
    assert forall|v: int| 0 <= v < n implies r1[v] == r2[v] by {
        if s1[v] {
            let j = choose|j: int| 0 <= j < o1.len() && o1[j] == v;
            assert(r1[o1[j]] == r2[o1[j]]);
        } else {
            assert forall|i: int| 0 <= i < es.len() && (#[trigger] es[i]).1 == v implies s1[es[i].0]
                == s1[es[i].0] && (s1[es[i].0] ==> r1[es[i].0] == r2[es[i].0]) by {
                if s1[es[i].0] {
                    let j = choose|j: int| 0 <= j < o1.len() && o1[j] == es[i].0;
                    assert(r1[o1[j]] == r2[o1[j]]);
                }
            }
            lemma_incoming_rank_congruent(es, s1, r1, s1, r2, v);
            assert(r1[v] == incoming_rank(es, s1, r1, v));
            assert(r2[v] == incoming_rank(es, s2, r2, v));
        }
    }
    assert(r1 =~= r2);
}

/// Every edge leaving a settled node points to a later layer.
pub proof fn lemma_edges_point_down(es: EdgeList, n: int, s: Seq<bool>, r: Seq<nat>, i: int)
    requires
        edges_in_range(es, n),
        is_ranking(es, n, s, r),
        0 <= i < es.len(),
        s[es[i].0],
    ensures
        r[es[i].1] >= r[es[i].0] + 1,
{
    lemma_incoming_rank_above(es, s, r, es[i].1, i);
    assert(r[es[i].1] == incoming_rank(es, s, r, es[i].1));
}


// ════════════════════════════ layers of a diagram ════════════════════════════

/// The ids of the nodes, each once, in the order they first appear.
pub open spec fn node_ids(nodes: Seq<NodeView>) -> Seq<Seq<char>> {
    add_all(seq![], nodes.map_values(|n: NodeView| n.id))
}

/// The edges whose two ends are both nodes, as pairs of indices into `ids`.
pub open spec fn graph_edges(ids: Seq<Seq<char>>, edges: Seq<EdgeView>) -> EdgeList
    decreases edges.len(),
{
    if edges.len() == 0 {
        seq![]
    } else {
        let rest = graph_edges(ids, edges.drop_last());
        let e = edges.last();
        match (index_from(ids, e.from, 0), index_from(ids, e.to, 0)) {
            (Some(a), Some(b)) => rest.push((a, b)),
            _ => rest,
        }
    }
}

/// The highest rank, or 0.
pub open spec fn max_rank(r: Seq<nat>) -> nat
    decreases r.len(),
{
    if r.len() == 0 {
        0
    } else {
        let m = max_rank(r.drop_last());
        if r.last() > m {
            r.last()
        } else {
            m
        }
    }
}

/// The ids among the first `k` whose rank is `r`.
pub open spec fn rank_members(ids: Seq<Seq<char>>, ranks: Seq<nat>, r: nat, k: int) -> Set<Seq<char>> {
    Set::new(|x: Seq<char>| exists|v: int| 0 <= v < k && #[trigger] ids[v] == x && ranks[v] == r)
}

/// `layers[r]` holds the ids of rank `r` in ascending order, for every rank
/// from 0 to the highest.
pub open spec fn is_layers(ids: Seq<Seq<char>>, ranks: Seq<nat>, layers: Seq<Seq<Seq<char>>>) -> bool {
    &&& layers.len() == max_rank(ranks) + 1
    &&& forall|r: int| 0 <= r < layers.len() ==> strictly_sorted(#[trigger] layers[r])
    &&& forall|r: int|
        0 <= r < layers.len() ==> (#[trigger] layers[r]).to_set() == rank_members(
            ids,
            ranks,
            r as nat,
            ids.len() as int,
        )
}

/// How a diagram's nodes are spread over layers.
#[derive(Debug, Clone)]
pub struct Layering {
    /// The node ids, each once, in the order they first appear.
    pub ids: Vec<String>,
    /// `ranks[i]` is the layer of `ids[i]`.
    pub ranks: Vec<usize>,
    /// `layers[r]` holds the ids of layer `r` in ascending order.
    pub layers: Vec<Vec<String>>,
}

fn id_position(ids: &Vec<String>, x: &String) -> (r: Option<usize>)
    ensures
        r matches Some(i) ==> index_from(ids.deep_view(), x@, 0) == Some(i as int) && i < ids.len(),
        r is None ==> index_from(ids.deep_view(), x@, 0) is None,
{
    let mut i: usize = 0;
    while i < ids.len()
        invariant
            0 <= i <= ids.len(),
            index_from(ids.deep_view(), x@, 0) == index_from(ids.deep_view(), x@, i as int),
        decreases ids.len() - i,
    {
        if ids[i] == *x {
            return Some(i);
        }
        i = i + 1;
    }
    None
}

/// Spreads the nodes of a diagram over layers: ranks them by topological
/// settling over the edges between nodes, and lists each layer by id.
pub fn compute_layers(ir: &DiagramIR) -> (out: Layering)
    ensures
        out.ids.deep_view() == node_ids(ir@.nodes),
        out.ranks.len() == out.ids.len(),
        exists|s: Seq<bool>|
            is_ranking(
                graph_edges(node_ids(ir@.nodes), ir@.edges),
                out.ids.len() as int,
                s,
                rank_values(out.ranks@),
            ),
        is_layers(out.ids.deep_view(), rank_values(out.ranks@), out.layers.deep_view()),
{
    // distinct ids
    let ghost all = ir@.nodes.map_values(|n: NodeView| n.id);
    let mut ids: Vec<String> = Vec::new();
    let mut i: usize = 0;
    assert(all.take(0) =~= seq![]);
    assert(ids.deep_view() =~= seq![]);
    while i < ir.nodes.len()
        invariant
            0 <= i <= ir.nodes.len(),
            all == ir@.nodes.map_values(|n: NodeView| n.id),
            ids.deep_view() == add_all(seq![], all.take(i as int)),
        decreases ir.nodes.len() - i,
    {
        assert(all.take(i + 1).drop_last() =~= all.take(i as int));
        assert(all[i as int] == ir.nodes@[i as int].id@);
        add_unique_id(&mut ids, &ir.nodes[i].id);
        i = i + 1;
    }
    assert(all.take(ir.nodes.len() as int) =~= all);
    let ghost idv = ids.deep_view();
    proof {
        assert(distinct_ids(seq![]));
        lemma_add_all_distinct(seq![], all);
    }
    // edges between nodes
    let ghost evs = ir@.edges;
    let mut edges: Vec<(usize, usize)> = Vec::new();
    let mut j: usize = 0;
    assert(evs.take(0) =~= seq![]);
    assert(edge_pairs(edges@) =~= seq![]);
    while j < ir.edges.len()
        invariant
            0 <= j <= ir.edges.len(),
            evs == ir@.edges,
            idv == ids.deep_view(),
            edge_pairs(edges@) == graph_edges(idv, evs.take(j as int)),
            edges_in_range(edge_pairs(edges@), ids.len() as int),
        decreases ir.edges.len() - j,
    {
        assert(evs.take(j + 1).drop_last() =~= evs.take(j as int));
        assert(evs.take(j + 1).last() == ir.edges@[j as int]@);
        let a = id_position(&ids, &ir.edges[j].from);
        let b = id_position(&ids, &ir.edges[j].to);
        match (a, b) {
            (Some(x), Some(y)) => {
                let ghost before = edge_pairs(edges@);
                edges.push((x, y));
                assert(edge_pairs(edges@) =~= before.push((x as int, y as int)));
            },
            _ => {},
        }
        j = j + 1;
    }
    assert(evs.take(ir.edges.len() as int) =~= evs);
    // ranks
    let n = ids.len();
    let (settled, ranks) = settle_ranks(n, &edges);
    // layers
    let ghost rv = rank_values(ranks@);
    let mut max: usize = 0;
    let mut k: usize = 0;
    while k < n
        invariant
            0 <= k <= n,
            ranks.len() == n,
            rv == rank_values(ranks@),
            max as nat == max_rank(rv.take(k as int)),
        decreases n - k,
    {
        assert(rv.take(k + 1).drop_last() =~= rv.take(k as int));
        if ranks[k] > max {
            max = ranks[k];
        }
        k = k + 1;
    }
    assert(rv.take(n as int) =~= rv);
    let mut layers: Vec<Vec<String>> = Vec::new();
    let mut r: usize = 0;
    loop
        invariant_except_break
            0 <= r <= max,
            layers.len() == r,
            forall|q: int| 0 <= q < r ==> strictly_sorted(#[trigger] layers.deep_view()[q]),
            forall|q: int| 0 <= q < r ==> (#[trigger] layers.deep_view()[q]).to_set() == rank_members(
                idv,
                rv,
                q as nat,
                n as int,
            ),
        invariant
            ranks.len() == n,
            ids.len() == n,
            idv == ids.deep_view(),
            distinct_ids(idv),
            rv == rank_values(ranks@),
            max as nat == max_rank(rv),
        ensures
            layers.len() == max + 1,
            forall|q: int| 0 <= q < layers.len() ==> strictly_sorted(#[trigger] layers.deep_view()[q]),
            forall|q: int| 0 <= q < layers.len() ==> (#[trigger] layers.deep_view()[q]).to_set()
                == rank_members(idv, rv, q as nat, n as int),
        decreases max - r + 1,
    {
        let mut layer: Vec<String> = Vec::new();
        let mut v: usize = 0;
        assert(layer.deep_view().to_set() =~= rank_members(idv, rv, r as nat, 0));
        while v < n
            invariant
                0 <= v <= n,
                ranks.len() == n,
                ids.len() == n,
                idv == ids.deep_view(),
                distinct_ids(idv),
                rv == rank_values(ranks@),
                strictly_sorted(layer.deep_view()),
                layer.deep_view().to_set() == rank_members(idv, rv, r as nat, v as int),
            decreases n - v,
        {
            if ranks[v] == r {
                let ghost before = layer.deep_view();
                proof {
                    if before.contains(idv[v as int]) {
                        assert(before.to_set().contains(idv[v as int]));
                        let w = choose|w: int| 0 <= w < v && #[trigger] idv[w] == idv[v as int] && rv[w] == r;
                        assert(false);
                    }
                }
                insert_sorted(&mut layer, ids[v].clone());
                assert(layer.deep_view().to_set() =~= rank_members(idv, rv, r as nat, v + 1)) by {
                    assert forall|x: Seq<char>| rank_members(idv, rv, r as nat, v + 1).contains(x) implies before.to_set().insert(idv[v as int]).contains(x) by {
                        let w = choose|w: int| 0 <= w < v + 1 && #[trigger] idv[w] == x && rv[w] == r;
                        if w < v {
                            assert(rank_members(idv, rv, r as nat, v as int).contains(x));
                        }
                    }
                    assert forall|x: Seq<char>| before.to_set().insert(idv[v as int]).contains(x) implies rank_members(idv, rv, r as nat, v + 1).contains(x) by {
                        if x != idv[v as int] {
                            assert(rank_members(idv, rv, r as nat, v as int).contains(x));
                            let w = choose|w: int| 0 <= w < v && #[trigger] idv[w] == x && rv[w] == r;
                            assert(0 <= w < v + 1 && idv[w] == x && rv[w] == r);
                        } else {
                            assert(idv[v as int] == x && rv[v as int] == r);
                        }
                    }
                }
            } else {
                assert(layer.deep_view().to_set() =~= rank_members(idv, rv, r as nat, v + 1)) by {
                    assert forall|x: Seq<char>| rank_members(idv, rv, r as nat, v + 1).contains(x) implies rank_members(idv, rv, r as nat, v as int).contains(x) by {
                        let w = choose|w: int| 0 <= w < v + 1 && #[trigger] idv[w] == x && rv[w] == r;
                        assert(w != v);
                    }
                }
            }
            v = v + 1;
        }
        let ghost before = layers.deep_view();
        layers.push(layer);
        assert(layers.deep_view() =~= before.push(layer.deep_view()));
        if r == max {
            break;
        }
        r = r + 1;
    }
    proof {
        assert(is_ranking(graph_edges(node_ids(ir@.nodes), ir@.edges), n as int, settled@, rv));
    }
    Layering { ids, ranks, layers }
}


proof fn lemma_incoming_rank_zero(es: EdgeList, s: Seq<bool>, r: Seq<nat>, v: int)
    requires
        forall|i: int| 0 <= i < es.len() && (#[trigger] es[i]).1 == v ==> !s[es[i].0],
    ensures
        incoming_rank(es, s, r, v) == 0,
    decreases es.len(),
{
    if es.len() > 0 {
        let d = es.drop_last();
        assert forall|i: int| 0 <= i < d.len() && (#[trigger] d[i]).1 == v implies !s[d[i].0] by {
            assert(d[i] == es[i]);
        }
        lemma_incoming_rank_zero(d, s, r, v);
        assert(es.last() == es[es.len() - 1]);
    }
}

/// A node with no edge into it from a settled node is in the first layer.
pub proof fn lemma_unreached_rank_zero(es: EdgeList, n: int, s: Seq<bool>, r: Seq<nat>, v: int)
    requires
        is_ranking(es, n, s, r),
        0 <= v < n,
        forall|i: int| 0 <= i < es.len() && (#[trigger] es[i]).1 == v ==> !s[es[i].0],
    ensures
        r[v] == 0,
{
    lemma_incoming_rank_zero(es, s, r, v);
}

proof fn lemma_max_rank(r: Seq<nat>, v: int)
    requires
        0 <= v < r.len(),
    ensures
        r[v] <= max_rank(r),
    decreases r.len(),
{
    if v < r.len() - 1 {
        assert(r.drop_last()[v] == r[v]);
        lemma_max_rank(r.drop_last(), v);
    }
}

/// Every node is listed once over all layers: in the layer of its rank and in
/// no other.
pub proof fn lemma_node_in_its_layer(
    ids: Seq<Seq<char>>,
    ranks: Seq<nat>,
    layers: Seq<Seq<Seq<char>>>,
    v: int,
)
    requires
        is_layers(ids, ranks, layers),
        distinct_ids(ids),
        ranks.len() == ids.len(),
        0 <= v < ids.len(),
    ensures
        ranks[v] < layers.len(),
        layers[ranks[v] as int].contains(ids[v]),
        forall|q: int| 0 <= q < layers.len() && q != ranks[v] ==> !(#[trigger] layers[q]).contains(ids[v]),
{
    lemma_max_rank(ranks, v);
    let r = ranks[v] as int;
    assert(rank_members(ids, ranks, r as nat, ids.len() as int).contains(ids[v]));
    assert(layers[r].to_set().contains(ids[v]));
    assert forall|q: int| 0 <= q < layers.len() && q != ranks[v] implies !(#[trigger] layers[q]).contains(ids[v]) by {
        if layers[q].contains(ids[v]) {
            assert(layers[q].to_set().contains(ids[v]));
            assert(rank_members(ids, ranks, q as nat, ids.len() as int).contains(ids[v]));
            let w = choose|w: int| 0 <= w < ids.len() && #[trigger] ids[w] == ids[v] && ranks[w] == q as nat;
            if w < v {
                assert(ids[w] != ids[v]);
            } else if w > v {
                assert(ids[v] != ids[w]);
            }
        }
    }
}

/// The ids of a diagram's layering are listed once each.
pub proof fn lemma_node_ids_distinct(nodes: Seq<NodeView>)
    ensures
        distinct_ids(node_ids(nodes)),
{
    assert(distinct_ids(seq![]));
    lemma_add_all_distinct(seq![], nodes.map_values(|n: NodeView| n.id));
}


/// `w` walks along edges and comes back to where it started.
pub open spec fn is_cycle(es: EdgeList, w: Seq<int>) -> bool {
    &&& w.len() >= 2
    &&& w[0] == w[w.len() - 1]
    &&& forall|j: int|
        #![trigger w[j]]
        0 <= j < w.len() - 1 ==> exists|i: int| 0 <= i < es.len() && #[trigger] es[i] == (w[j], w[j + 1])
}

#[verifier::spinoff_prover]
#[verifier::rlimit(40)]
proof fn lemma_cycle_not_early(es: EdgeList, n: int, s: Seq<bool>, o: Seq<int>, w: Seq<int>, k: int)
    requires
        settle_order(es, n, s, o),
        is_cycle(es, w),
        0 <= k <= o.len(),
    ensures
        forall|j: int, m: int| 0 <= j < w.len() && 0 <= m < k ==> #[trigger] w[j] != #[trigger] o[m],
    decreases k,
{
    if k > 0 {
        lemma_cycle_not_early(es, n, s, o, w, k - 1);
        assert forall|j: int, m: int| 0 <= j < w.len() && 0 <= m < k implies #[trigger] w[j] != #[trigger] o[m] by {
            if m == k - 1 && w[j] == o[m] {
                // the node before w[j] on the cycle comes earlier in the order
                let jp = if j > 0 {
                    j - 1
                } else {
                    w.len() - 2
                };
                let jn = jp + 1;
                assert(w[jn] == w[j]);
                assert(w[jp] == w[jp]);
                let i = choose|i: int| 0 <= i < es.len() && #[trigger] es[i] == (w[jp], w[jp + 1]);
                assert(es[i].1 == o[m]);
                assert(o.take(m).contains(es[i].0));
                let q = choose|q: int| 0 <= q < m && #[trigger] o.take(m)[q] == es[i].0;
                assert(o[q] == w[jp]);
            }
        }
    }
}

/// A node on a cycle is never settled: topological settling leaves cycles,
/// and what they feed, out of its order.
pub proof fn lemma_cycle_unsettled(es: EdgeList, n: int, s: Seq<bool>, r: Seq<nat>, w: Seq<int>)
    requires
        is_ranking(es, n, s, r),
        is_cycle(es, w),
        forall|j: int| 0 <= j < w.len() ==> 0 <= #[trigger] w[j] < n,
    ensures
        forall|j: int| 0 <= j < w.len() ==> !s[#[trigger] w[j]],
{
    let o = choose|o: Seq<int>| settle_order(es, n, s, o);
    lemma_cycle_not_early(es, n, s, o, w, o.len() as int);
    assert forall|j: int| 0 <= j < w.len() implies !s[#[trigger] w[j]] by {
        if s[w[j]] {
            assert(o.contains(w[j]));
            let m = choose|m: int| 0 <= m < o.len() && o[m] == w[j];
            assert(w[j] != o[m]);
        }
    }
}


/// Every step of `w` is one of the `n` nodes.
pub open spec fn walk_in_range(w: Seq<int>, n: int) -> bool {
    forall|j: int| 0 <= j < w.len() ==> 0 <= #[trigger] w[j] < n
}

/// A walk back from an unsettled node through `k` unsettled predecessors.
#[verifier::spinoff_prover]
#[verifier::rlimit(40)]
proof fn back_walk(es: EdgeList, n: int, s: Seq<bool>, v: int, k: nat) -> (w: Seq<int>)
    requires
        edges_in_range(es, n),
        forall|x: int| 0 <= x < n && !s[x] ==> !#[trigger] preds_settled(es, s, x),
        0 <= v < n,
        !s[v],
    ensures
        w.len() == k + 1,
        w[w.len() - 1] == v,
        walk_in_range(w, n),
        forall|j: int| 0 <= j < w.len() ==> !s[#[trigger] w[j]],
        forall|j: int|
            #![trigger w[j]]
            0 <= j < w.len() - 1 ==> exists|i: int| 0 <= i < es.len() && #[trigger] es[i] == (w[j], w[j + 1]),
    decreases k,
{
    if k == 0 {
        seq![v]
    } else {
        assert(!preds_settled(es, s, v));
        let i = choose|i: int| 0 <= i < es.len() && (#[trigger] es[i]).1 == v && !s[es[i].0];
        let u = es[i].0;
        let w0 = back_walk(es, n, s, u, (k - 1) as nat);
        let w = w0.push(v);
        assert forall|j: int| #![trigger w[j]] 0 <= j < w.len() - 1 implies exists|i2: int|
            0 <= i2 < es.len() && #[trigger] es[i2] == (w[j], w[j + 1]) by {
            if j < w0.len() - 1 {
                assert(w[j] == w0[j] && w[j + 1] == w0[j + 1]);
                assert(w0[j] == w0[j]);
            } else {
                assert(w[j] == u && w[j + 1] == v);
                assert(es[i] == (u, v));
            }
        }
        assert forall|j: int| 0 <= j < w.len() implies 0 <= #[trigger] w[j] < n by {
            if j < w0.len() {
                assert(w[j] == w0[j]);
            }
        }
        assert forall|j: int| 0 <= j < w.len() implies !s[#[trigger] w[j]] by {
            if j < w0.len() {
                assert(w[j] == w0[j]);
            }
        }
        w
    }
}

/// A walk of more than `n` steps over `n` nodes visits some node twice.
proof fn lemma_walk_repeats(w: Seq<int>, n: int) -> (ab: (int, int))
    requires
        walk_in_range(w, n),
        w.len() > n,
        n >= 0,
    ensures
        0 <= ab.0 < ab.1 < w.len(),
        w[ab.0] == w[ab.1],
{
    vstd::set_lib::lemma_int_range(0, n);
    assert(w.to_set().subset_of(vstd::set_lib::set_int_range(0, n))) by {
        assert forall|x: int| w.to_set().contains(x) implies vstd::set_lib::set_int_range(0, n).contains(x) by {
            let j = choose|j: int| 0 <= j < w.len() && w[j] == x;
            assert(0 <= w[j] < n);
        }
    }
    vstd::set_lib::lemma_len_subset(w.to_set(), vstd::set_lib::set_int_range(0, n));
    if !(exists|a: int, b: int| 0 <= a < b < w.len() && w[a] == w[b]) {
        assert(w.no_duplicates()) by {
            assert forall|a: int, b: int| 0 <= a < w.len() && 0 <= b < w.len() && a != b implies w[a] != w[b] by {
                if a < b {
                    assert(!(w[a] == w[b]));
                } else {
                    assert(!(w[b] == w[a]));
                }
            }
        }
        w.unique_seq_to_set();
    }
    choose|a: int, b: int| 0 <= a < b < w.len() && w[a] == w[b]
}

/// The stretch of a walk between two visits of one node is a cycle.
proof fn lemma_cycle_of_repeat(es: EdgeList, n: int, w: Seq<int>, a: int, b: int) -> (c: Seq<int>)
    requires
        walk_in_range(w, n),
        forall|j: int|
            #![trigger w[j]]
            0 <= j < w.len() - 1 ==> exists|i: int| 0 <= i < es.len() && #[trigger] es[i] == (w[j], w[j + 1]),
        0 <= a < b < w.len(),
        w[a] == w[b],
    ensures
        is_cycle(es, c),
        walk_in_range(c, n),
{
    let c = w.subrange(a, b + 1);
    assert forall|j: int| #![trigger c[j]] 0 <= j < c.len() - 1 implies exists|i: int|
        0 <= i < es.len() && #[trigger] es[i] == (c[j], c[j + 1]) by {
        assert(c[j] == w[a + j] && c[j + 1] == w[a + j + 1]);
        assert(w[a + j] == w[a + j]);
    }
    assert forall|j: int| 0 <= j < c.len() implies 0 <= #[trigger] c[j] < n by {
        assert(c[j] == w[a + j]);
    }
    c
}

/// Behind every unsettled node lies a cycle.
proof fn lemma_unsettled_behind_cycle(es: EdgeList, n: int, s: Seq<bool>, v: int)
    requires
        edges_in_range(es, n),
        forall|x: int| 0 <= x < n && !s[x] ==> !#[trigger] preds_settled(es, s, x),
        0 <= v < n,
        !s[v],
    ensures
        exists|w: Seq<int>| #[trigger] is_cycle(es, w) && walk_in_range(w, n),
{
    let w = back_walk(es, n, s, v, n as nat);
    let (a, b) = lemma_walk_repeats(w, n);
    let c = lemma_cycle_of_repeat(es, n, w, a, b);
    assert(is_cycle(es, c) && walk_in_range(c, n));
}

/// Topological settling settles every node exactly when the graph has no
/// cycle.
pub proof fn lemma_all_settled_iff_acyclic(es: EdgeList, n: int, s: Seq<bool>, r: Seq<nat>)
    requires
        edges_in_range(es, n),
        is_ranking(es, n, s, r),
    ensures
        (forall|v: int| 0 <= v < n ==> #[trigger] s[v]) <==> !exists|w: Seq<int>|
            #[trigger] is_cycle(es, w) && walk_in_range(w, n),
{
    if exists|w: Seq<int>| #[trigger] is_cycle(es, w) && walk_in_range(w, n) {
        let w = choose|w: Seq<int>| #[trigger] is_cycle(es, w) && walk_in_range(w, n);
        lemma_cycle_unsettled(es, n, s, r, w);
        assert(!s[w[0]]);
    }
    if !(forall|v: int| 0 <= v < n ==> #[trigger] s[v]) {
        let v = choose|v: int| 0 <= v < n && !#[trigger] s[v];
        lemma_unsettled_behind_cycle(es, n, s, v);
    }
}

/// Each layer lists its ids in the order of `str`: of two ids in a layer,
/// the first is a proper prefix of the second, or at the first character
/// where they differ the first has the smaller one.
pub proof fn lemma_layers_lexicographic(
    ids: Seq<Seq<char>>,
    ranks: Seq<nat>,
    layers: Seq<Seq<Seq<char>>>,
    r: int,
    i: int,
    j: int,
)
    requires
        is_layers(ids, ranks, layers),
        0 <= r < layers.len(),
        0 <= i < j < layers[r].len(),
    ensures
        proper_prefix(layers[r][i], layers[r][j]) || exists|k: int|
            #[trigger] first_difference_less(layers[r][i], layers[r][j], k),
{
    assert(strictly_sorted(layers[r]));
    assert(str_less(layers[r][i], layers[r][j]));
    lemma_str_less_lexicographic(layers[r][i], layers[r][j]);
}

} // verus!
