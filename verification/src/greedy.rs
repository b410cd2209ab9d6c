//! The reference greedy solver: repeatedly takes a node of greatest
//! remaining degree from a priority queue into the dominating set. The queue
//! is the outside crate's; the claim that the result dominates every
//! non-isolated node is proved against the queue's contracts.
use vstd::prelude::*;

use crate::pace::{edge_wf, Graph};
use crate::solution::{covered, dominates};

verus! {

#[verifier::external_type_specification]
#[verifier::external_body]
#[verifier::reject_recursive_types(I)]
#[verifier::reject_recursive_types(P)]
#[verifier::reject_recursive_types(H)]
pub struct ExPriorityQueue<I, P, H>(priority_queue::PriorityQueue<I, P, H>);

/// What the queue holds: each item's priority.
pub uninterp spec fn pq_contents(
    q: priority_queue::PriorityQueue<u32, u32, std::collections::hash_map::RandomState>,
) -> Map<u32, u32>;

/// Relies on `PriorityQueue::new`: an empty queue.
#[verifier::external_body]
fn pq_new() -> (q: priority_queue::PriorityQueue<u32, u32, std::collections::hash_map::RandomState>)
    ensures
        pq_contents(q) == (Map::<u32, u32>::empty()),
{
    priority_queue::PriorityQueue::new()
}

/// Relies on `PriorityQueue::push`: files the item under the priority; an
/// item already present has its priority replaced.
#[verifier::external_body]
fn pq_push(
    q: &mut priority_queue::PriorityQueue<u32, u32, std::collections::hash_map::RandomState>,
    item: u32,
    prio: u32,
)
    ensures
        pq_contents(*final(q)) == pq_contents(*old(q)).insert(item, prio),
{
    let _ = q.push(item, prio);
}

/// Relies on `PriorityQueue::is_empty`: whether the queue holds no item.
#[verifier::external_body]
fn pq_is_empty(
    q: &priority_queue::PriorityQueue<u32, u32, std::collections::hash_map::RandomState>,
) -> (r: bool)
    ensures
        r <==> pq_contents(*q).dom() == Set::<u32>::empty(),
{
    q.is_empty()
}

/// Relies on `PriorityQueue::pop`: removes and returns an item of greatest
/// priority, or nothing from an empty queue. Which of two equally greatest
/// items leaves is not promised.
#[verifier::external_body]
fn pq_pop(
    q: &mut priority_queue::PriorityQueue<u32, u32, std::collections::hash_map::RandomState>,
) -> (r: Option<(u32, u32)>)
    ensures
        match r {
            None => pq_contents(*old(q)).dom() == Set::<u32>::empty() && pq_contents(*final(q))
                == pq_contents(*old(q)),
            Some(p) => {
                &&& pq_contents(*old(q)).dom().contains(p.0)
                &&& pq_contents(*old(q))[p.0] == p.1
                &&& forall|j: u32|
                    pq_contents(*old(q)).dom().contains(j) ==> pq_contents(*old(q))[j] <= p.1
                &&& pq_contents(*final(q)) == pq_contents(*old(q)).remove(p.0)
            },
        },
{
    q.pop()
}

/// One less, stopping at zero.
pub open spec fn sat_dec(x: u32) -> u32 {
    if x == 0 {
        0
    } else {
        (x - 1) as u32
    }
}

/// Decrements a priority in place, stopping at zero.
fn dec_in_place(p: &mut u32)
    ensures
        *final(p) == sat_dec(*old(p)),
{
    if *p > 0 {
        *p = *p - 1;
    }
}

/// Relies on `PriorityQueue::change_priority_by`: applies the closure to the
/// item's priority when the item is present, and does nothing otherwise.
#[verifier::external_body]
fn pq_decrement(
    q: &mut priority_queue::PriorityQueue<u32, u32, std::collections::hash_map::RandomState>,
    item: u32,
)
    ensures
        pq_contents(*final(q)) == if pq_contents(*old(q)).dom().contains(item) {
            pq_contents(*old(q)).insert(item, sat_dec(pq_contents(*old(q))[item]))
        } else {
            pq_contents(*old(q))
        },
{
    let _ = q.change_priority_by(&item, |p: &mut u32| dec_in_place(p));
}

/// How often `x` occurs in `s`.
pub open spec fn occ(s: Seq<u32>, x: u32) -> nat
    decreases s.len(),
{
    if s.len() == 0 {
        0
    } else {
        occ(s.drop_last(), x) + if s.last() == x {
            1nat
        } else {
            0nat
        }
    }
}

/// Whether the edge joins `v` and `w`.
pub open spec fn edge_joins(e: (u32, u32), v: u32, w: u32) -> bool {
    (e.0 == v && e.1 == w) || (e.0 == w && e.1 == v)
}

/// How many edges join `v` and `w`.
pub open spec fn edge_mult(edges: Seq<(u32, u32)>, v: u32, w: u32) -> nat
    decreases edges.len(),
{
    if edges.len() == 0 {
        0
    } else {
        edge_mult(edges.drop_last(), v, w) + if edge_joins(edges.last(), v, w) {
            1nat
        } else {
            0nat
        }
    }
}

/// Whether any edge touches `v`.
pub open spec fn touches(edges: Seq<(u32, u32)>, v: u32) -> bool {
    exists|i: int|
        0 <= i < edges.len() && ((#[trigger] edges[i]).0 == v || edges[i].1 == v)
}

/// How many entries of `s` are not yet dominated set members.
pub open spec fn uncov(s: Seq<u32>, ds: Seq<u32>) -> nat
    decreases s.len(),
{
    if s.len() == 0 {
        0
    } else {
        uncov(s.drop_last(), ds) + if ds.contains(s.last()) {
            0nat
        } else {
            1nat
        }
    }
}

proof fn lemma_contains_push(s: Seq<u32>, x: u32, y: u32)
    ensures
        s.push(x).contains(y) <==> s.contains(y) || x == y,
{
    if s.contains(y) {
        let w = choose|w: int| 0 <= w < s.len() && s[w] == y;
        assert(s.push(x)[w] == y);
    }
    if x == y {
        assert(s.push(x)[s.len() as int] == y);
    }
    if s.push(x).contains(y) {
        let w = choose|w: int| 0 <= w < s.push(x).len() && s.push(x)[w] == y;
        if w < s.len() {
            assert(s[w] == y);
        }
    }
}

proof fn lemma_uncov_empty_ds(s: Seq<u32>)
    ensures
        uncov(s, Seq::empty()) == s.len(),
    decreases s.len(),
{
    if s.len() > 0 {
        lemma_uncov_empty_ds(s.drop_last());
    }
}

proof fn lemma_uncov_push(s: Seq<u32>, ds: Seq<u32>, u: u32)
    requires
        !ds.contains(u),
    ensures
        uncov(s, ds.push(u)) + occ(s, u) == uncov(s, ds),
    decreases s.len(),
{
    if s.len() > 0 {
        lemma_uncov_push(s.drop_last(), ds, u);
        lemma_contains_push(ds, u, s.last());
    }
}

proof fn lemma_uncov_zero(s: Seq<u32>, ds: Seq<u32>, k: int)
    requires
        uncov(s, ds) == 0,
        0 <= k < s.len(),
    ensures
        ds.contains(s[k]),
    decreases s.len(),
{
    if k == s.len() - 1 {
        assert(s.last() == s[k]);
    } else {
        lemma_uncov_zero(s.drop_last(), ds, k);
        assert(s.drop_last()[k] == s[k]);
    }
}

proof fn lemma_uncov_ge_occ(s: Seq<u32>, ds: Seq<u32>, u: u32)
    requires
        !ds.contains(u),
    ensures
        uncov(s, ds) >= occ(s, u),
    decreases s.len(),
{
    if s.len() > 0 {
        lemma_uncov_ge_occ(s.drop_last(), ds, u);
    }
}

proof fn lemma_uncov_le_len(s: Seq<u32>, ds: Seq<u32>)
    ensures
        uncov(s, ds) <= s.len(),
    decreases s.len(),
{
    if s.len() > 0 {
        lemma_uncov_le_len(s.drop_last(), ds);
    }
}

proof fn lemma_edge_mult_sym(edges: Seq<(u32, u32)>, v: u32, w: u32)
    ensures
        edge_mult(edges, v, w) == edge_mult(edges, w, v),
    decreases edges.len(),
{
    if edges.len() > 0 {
        lemma_edge_mult_sym(edges.drop_last(), v, w);
    }
}

proof fn lemma_edge_mult_pos(edges: Seq<(u32, u32)>, v: u32, w: u32)
    requires
        edge_mult(edges, v, w) > 0,
    ensures
        exists|i: int| 0 <= i < edges.len() && edge_joins(#[trigger] edges[i], v, w),
    decreases edges.len(),
{
    if edge_joins(edges.last(), v, w) {
        assert(edge_joins(edges[edges.len() - 1], v, w));
    } else {
        lemma_edge_mult_pos(edges.drop_last(), v, w);
        let i = choose|i: int|
            0 <= i < edges.drop_last().len() && edge_joins(#[trigger] edges.drop_last()[i], v, w);
        assert(edge_joins(edges[i], v, w));
    }
}

proof fn lemma_touch_mult(edges: Seq<(u32, u32)>, i: int, v: u32)
    requires
        0 <= i < edges.len(),
        edges[i].0 == v || edges[i].1 == v,
    ensures
        edge_mult(edges, v, if edges[i].0 == v {
            edges[i].1
        } else {
            edges[i].0
        }) > 0,
    decreases edges.len(),
{
    let w = if edges[i].0 == v {
        edges[i].1
    } else {
        edges[i].0
    };
    if i == edges.len() - 1 {
        assert(edge_joins(edges.last(), v, w));
    } else {
        lemma_touch_mult(edges.drop_last(), i, v);
        assert(edges.drop_last()[i] == edges[i]);
    }
}

proof fn lemma_occ_take_le(s: Seq<u32>, t: int, x: u32)
    requires
        0 <= t <= s.len(),
    ensures
        occ(s.take(t), x) <= occ(s, x),
    decreases s.len() - t,
{
    if t < s.len() {
        lemma_occ_take_le(s, t + 1, x);
        assert(s.take(t + 1).drop_last() =~= s.take(t));
        assert(s.take(t + 1).last() == s[t]);
    } else {
        assert(s.take(t) =~= s);
    }
}

proof fn lemma_occ_at(s: Seq<u32>, k: int, x: u32)
    requires
        0 <= k < s.len(),
        s[k] == x,
    ensures
        occ(s, x) > 0,
    decreases s.len(),
{
    if k == s.len() - 1 {
        assert(s.last() == x);
    } else {
        lemma_occ_at(s.drop_last(), k, x);
    }
}

/// The neighbor lists of every node, built from the edge list: each edge
/// files each endpoint with the other, so each node's list holds each
/// neighbor once per joining edge.
pub fn build_adjacency(g: &Graph) -> (adj: Vec<Vec<u32>>)
    requires
        g.wf(),
        g.n + 1 <= usize::MAX,
    ensures
        adj@.len() == g.n + 1,
        forall|v: u32, w: u32|
            v <= g.n ==> #[trigger] occ(adj@[v as int]@, w) == edge_mult(g.edges@, v, w),
        forall|v: u32, k: int|
            v <= g.n && 0 <= k < adj@[v as int]@.len() ==> 1 <= #[trigger] adj@[v as int]@[k]
                <= g.n,
        forall|v: u32| v <= g.n ==> (#[trigger] adj@[v as int]@).len() <= g.edges@.len(),
{
    let rows: usize = (g.n as usize) + 1;
    let mut adj: Vec<Vec<u32>> = Vec::new();
    while adj.len() < rows
        invariant
            adj@.len() <= rows,
            forall|v: int| 0 <= v < adj@.len() ==> (#[trigger] adj@[v]@).len() == 0,
        decreases rows - adj@.len(),
    {
        adj.push(Vec::new());
    }
    let m = g.edges.len();
    let mut i: usize = 0;
    proof {
        assert(g.edges@.take(0) =~= Seq::<(u32, u32)>::empty());
    }
    while i < m
        invariant
            g.wf(),
            g.n + 1 <= usize::MAX,
            m == g.edges@.len(),
            0 <= i <= m,
            adj@.len() == g.n + 1,
            forall|v: u32, w: u32|
                v <= g.n ==> #[trigger] occ(adj@[v as int]@, w) == edge_mult(
                    g.edges@.take(i as int),
                    v,
                    w,
                ),
            forall|v: u32, k: int|
                v <= g.n && 0 <= k < adj@[v as int]@.len() ==> 1 <= #[trigger] adj@[v as int]@[k]
                    <= g.n,
            forall|v: u32| v <= g.n ==> (#[trigger] adj@[v as int]@).len() <= i,
        decreases m - i,
    {
        let ghost pre = adj@;
        let ghost et = g.edges@.take(i as int);
        let ghost et1 = g.edges@.take(i + 1);
        let (a, b) = g.edges[i];
        proof {
            assert(edge_wf(g.n, g.edges@[i as int]));
            assert(et1.drop_last() =~= et);
            assert(et1.last() == g.edges@[i as int]);
        }
        adj[a as usize].push(b);
        adj[b as usize].push(a);
        proof {
            assert(adj@[a as int]@ =~= pre[a as int]@.push(b));
            assert(adj@[b as int]@ =~= pre[b as int]@.push(a));
            assert forall|v: u32, w: u32| v <= g.n implies #[trigger] occ(adj@[v as int]@, w)
                == edge_mult(et1, v, w) by {
                assert(edge_mult(et1, v, w) == edge_mult(et, v, w) + if edge_joins(
                    (a, b),
                    v,
                    w,
                ) {
                    1nat
                } else {
                    0nat
                });
                if v == a {
                    assert(adj@[v as int]@ == pre[a as int]@.push(b));
                    assert(adj@[v as int]@.drop_last() =~= pre[a as int]@);
                    assert(occ(adj@[v as int]@, w) == occ(pre[a as int]@, w) + if b == w {
                        1nat
                    } else {
                        0nat
                    });
                } else if v == b {
                    assert(adj@[v as int]@ == pre[b as int]@.push(a));
                    assert(adj@[v as int]@.drop_last() =~= pre[b as int]@);
                    assert(occ(adj@[v as int]@, w) == occ(pre[b as int]@, w) + if a == w {
                        1nat
                    } else {
                        0nat
                    });
                } else {
                    assert(adj@[v as int]@ == pre[v as int]@);
                }
            }
        }
        i += 1;
    }
    proof {
        assert(g.edges@.take(m as int) =~= g.edges@);
    }
    adj
}

/// Greedily assembles a dominating set: every node that any edge touches is
/// in the set or adjacent to a member. A node no edge touches is never
/// taken; on a graph without such isolated nodes the result is a dominating
/// set.
pub fn greedy(g: &Graph) -> (domset: Vec<u32>)
    requires
        g.wf(),
        g.n + 1 <= usize::MAX,
    ensures
        forall|k: int| 0 <= k < domset@.len() ==> 1 <= #[trigger] domset@[k] <= g.n,
        domset@.no_duplicates(),
        forall|k: int| 0 <= k < domset@.len() ==> touches(g.edges@, #[trigger] domset@[k]),
        forall|v: u32|
            1 <= v <= g.n && touches(g.edges@, v) ==> covered(g.edges@, domset@, v),
        (forall|v: u32| 1 <= v <= g.n ==> #[trigger] touches(g.edges@, v)) ==> dominates(
            g.n,
            g.edges@,
            domset@,
        ),
{
    let adj = build_adjacency(g);
    let mut pq = pq_new();
    let mut v: u64 = 1;
    proof {
        assert(pq_contents(pq).dom() =~= Set::<u32>::empty());
    }
    while v <= g.n as u64
        invariant
            g.wf(),
            g.n + 1 <= usize::MAX,
            adj@.len() == g.n + 1,
            forall|a: u32| a <= g.n ==> (#[trigger] adj@[a as int]@).len() <= g.edges@.len(),
            1 <= v <= g.n as u64 + 1,
            pq_contents(pq).dom().finite(),
            forall|w: u32| #[trigger] pq_contents(pq).dom().contains(w) <==> 1 <= w < v,
            forall|w: u32|
                #[trigger] pq_contents(pq).dom().contains(w) ==> pq_contents(pq)[w] == adj@[
                    w as int
                ]@.len(),
        decreases g.n as u64 - v + 1,
    {
        let node = v as u32;
        let ghost before = pq_contents(pq);
        let deg = adj[v as usize].len() as u32;
        assert(deg == adj@[node as int]@.len());
        pq_push(&mut pq, node, deg);
        proof {
            assert(pq_contents(pq).dom() =~= before.dom().insert(node));
        }
        v += 1;
    }
    let ghost ev = g.edges@;
    let mut domset: Vec<u32> = Vec::new();
    proof {
        assert forall|w: u32| #[trigger]
        pq_contents(pq).dom().contains(w) implies pq_contents(pq)[w] == uncov(
            adj@[w as int]@,
            domset@,
        ) by {
            lemma_uncov_empty_ds(adj@[w as int]@);
            assert(domset@ =~= Seq::<u32>::empty());
        }
    }
    while !pq_is_empty(&pq)
        invariant
            g.wf(),
            g.n + 1 <= usize::MAX,
            ev == g.edges@,
            adj@.len() == g.n + 1,
            forall|a: u32, w: u32|
                a <= g.n ==> #[trigger] occ(adj@[a as int]@, w) == edge_mult(ev, a, w),
            forall|a: u32, k: int|
                a <= g.n && 0 <= k < adj@[a as int]@.len() ==> 1 <= #[trigger] adj@[a as int]@[k]
                    <= g.n,
            pq_contents(pq).dom().finite(),
            forall|w: u32| #[trigger] pq_contents(pq).dom().contains(w) ==> 1 <= w <= g.n,
            forall|w: u32|
                #[trigger] pq_contents(pq).dom().contains(w) ==> !domset@.contains(w),
            forall|w: u32|
                #[trigger] pq_contents(pq).dom().contains(w) ==> pq_contents(pq)[w] == uncov(
                    adj@[w as int]@,
                    domset@,
                ),
            forall|w: u32|
                1 <= w <= g.n && !(#[trigger] pq_contents(pq).dom().contains(w))
                    ==> domset@.contains(w) || adj@[w as int]@.len() == 0 || exists|k: int|
                    0 <= k < adj@[w as int]@.len() && domset@.contains(
                        #[trigger] adj@[w as int]@[k],
                    ),
            forall|k: int| 0 <= k < domset@.len() ==> 1 <= #[trigger] domset@[k] <= g.n,
            domset@.no_duplicates(),
            forall|k: int|
                0 <= k < domset@.len() ==> (#[trigger] adj@[domset@[k] as int]@).len() > 0,
        decreases pq_contents(pq).dom().len(),
    {
        let ghost c_prev = pq_contents(pq);
        let popped = pq_pop(&mut pq);
        let (node, degree) = match popped {
            Some(p) => p,
            None => {
                proof {
                    assert(false);
                }
                (0u32, 0u32)
            },
        };
        let ghost c0 = pq_contents(pq);
        proof {
            assert(c0 =~= c_prev.remove(node));
            assert(c0.dom() =~= c_prev.dom().remove(node));
            assert(c0.dom().len() < c_prev.dom().len());
        }
        if degree > 0 {
            let ghost ds0 = domset@;
            domset.push(node);
            let ghost ds = domset@;
            proof {
                assert(!ds0.contains(node));
                assert(c_prev.dom().contains(node));
                assert(degree == uncov(adj@[node as int]@, ds0));
                lemma_uncov_le_len(adj@[node as int]@, ds0);
                assert(adj@[node as int]@.len() > 0);
                assert forall|a2: int, b2: int| 0 <= a2 < b2 < ds.len() implies ds[a2]
                    != ds[b2] by {
                    if b2 == ds.len() - 1 {
                        assert(ds[b2] == node);
                        assert(ds[a2] == ds0[a2]);
                        if ds0[a2] == node {
                            assert(ds0.contains(node));
                        }
                    } else {
                        assert(ds[a2] == ds0[a2] && ds[b2] == ds0[b2]);
                    }
                }
                assert forall|k: int|
                    0 <= k < ds.len() implies (#[trigger] adj@[ds[k] as int]@).len() > 0 by {
                    if k < ds0.len() {
                        assert(ds[k] == ds0[k]);
                    } else {
                        assert(ds[k] == node);
                    }
                }
                assert forall|w: u32| #[trigger] c0.dom().contains(w) implies !ds.contains(
                    w,
                ) && w != node && !ds0.contains(w) by {
                    lemma_contains_push(ds0, node, w);
                }
                assert forall|w: u32|
                    1 <= w <= g.n && !(#[trigger] c0.dom().contains(w)) implies ds.contains(w)
                    || adj@[w as int]@.len() == 0 || exists|k: int|
                    0 <= k < adj@[w as int]@.len() && ds.contains(
                        #[trigger] adj@[w as int]@[k],
                    ) by {
                    lemma_contains_push(ds0, node, w);
                    if w != node && !c_prev.dom().contains(w) {
                        if ds0.contains(w) {
                        } else if adj@[w as int]@.len() == 0 {
                        } else if exists|k: int|
                            0 <= k < adj@[w as int]@.len() && ds0.contains(
                                #[trigger] adj@[w as int]@[k],
                            ) {
                            let k = choose|k: int|
                                0 <= k < adj@[w as int]@.len() && ds0.contains(
                                    #[trigger] adj@[w as int]@[k],
                                );
                            lemma_contains_push(ds0, node, adj@[w as int]@[k]);
                            assert(ds.contains(adj@[w as int]@[k]));
                        }
                    }
                }
            }
            let row = &adj[node as usize];
            let rlen = row.len();
            let mut t: usize = 0;
            proof {
                assert(row@ == adj@[node as int]@);
                assert(row@.take(0) =~= Seq::<u32>::empty());
                assert forall|w: u32| #[trigger] pq_contents(pq).dom().contains(w) implies
                pq_contents(pq)[w] + occ(row@.take(0), w) == uncov(adj@[w as int]@, ds0) by {
                    assert(occ(row@.take(0), w) == 0);
                }
            }
            while t < rlen
                invariant
                    g.wf(),
                    g.n + 1 <= usize::MAX,
                    ev == g.edges@,
                    adj@.len() == g.n + 1,
                    forall|a: u32, w: u32|
                        a <= g.n ==> #[trigger] occ(adj@[a as int]@, w) == edge_mult(ev, a, w),
                    forall|a: u32, k: int|
                        a <= g.n && 0 <= k < adj@[a as int]@.len() ==> 1 <= #[trigger] adj@[
                            a as int
                        ]@[k] <= g.n,
                    1 <= node <= g.n,
                    row@ == adj@[node as int]@,
                    rlen == row@.len(),
                    0 <= t <= rlen,
                    ds == domset@,
                    ds == ds0.push(node),
                    !ds0.contains(node),
                    forall|k: int| 0 <= k < ds.len() ==> 1 <= #[trigger] ds[k] <= g.n,
                    ds.no_duplicates(),
                    forall|k: int|
                        0 <= k < ds.len() ==> (#[trigger] adj@[ds[k] as int]@).len() > 0,
                    pq_contents(pq).dom() == c0.dom(),
                    pq_contents(pq).dom().finite(),
                    forall|w: u32| #[trigger] c0.dom().contains(w) ==> 1 <= w <= g.n,
                    forall|w: u32|
                        #[trigger] c0.dom().contains(w) ==> !ds.contains(w) && w != node
                            && !ds0.contains(w),
                    forall|w: u32|
                        #[trigger] pq_contents(pq).dom().contains(w) ==> pq_contents(pq)[w]
                            + occ(row@.take(t as int), w) == uncov(adj@[w as int]@, ds0),
                    forall|w: u32|
                        1 <= w <= g.n && !(#[trigger] c0.dom().contains(w)) ==> ds.contains(w)
                            || adj@[w as int]@.len() == 0 || exists|k: int|
                            0 <= k < adj@[w as int]@.len() && ds.contains(
                                #[trigger] adj@[w as int]@[k],
                            ),
                decreases rlen - t,
            {
                let w0 = row[t];
                let ghost cbefore = pq_contents(pq);
                proof {
                    assert(row@.take(t + 1).drop_last() =~= row@.take(t as int));
                    assert(row@.take(t + 1).last() == row@[t as int]);
                    if cbefore.dom().contains(w0) {
                        assert(1 <= w0 <= g.n);
                        assert(occ(row@.take(t + 1), w0) <= occ(row@, w0)) by {
                            lemma_occ_take_le(row@, t + 1, w0);
                        }
                        assert(occ(row@, w0) == edge_mult(ev, node, w0));
                        lemma_edge_mult_sym(ev, node, w0);
                        assert(occ(adj@[w0 as int]@, node) == edge_mult(ev, w0, node));
                        lemma_uncov_ge_occ(adj@[w0 as int]@, ds0, node);
                        assert(cbefore[w0] >= 1);
                    }
                }
                pq_decrement(&mut pq, w0);
                proof {
                    if cbefore.dom().contains(w0) {
                        assert(pq_contents(pq).dom() =~= cbefore.dom());
                    }
                    assert forall|w: u32| #[trigger]
                    pq_contents(pq).dom().contains(w) implies pq_contents(pq)[w] + occ(
                        row@.take(t + 1),
                        w,
                    ) == uncov(adj@[w as int]@, ds0) by {
                        assert(occ(row@.take(t + 1), w) == occ(row@.take(t as int), w)
                            + if row@[t as int] == w {
                            1nat
                        } else {
                            0nat
                        });
                        if w == w0 {
                            assert(cbefore.dom().contains(w0));
                            assert(pq_contents(pq)[w] == sat_dec(cbefore[w]));
                        } else {
                            assert(pq_contents(pq)[w] == cbefore[w]);
                        }
                    }
                }
                t += 1;
            }
            proof {
                assert(row@.take(rlen as int) =~= row@);
                assert forall|w: u32| #[trigger]
                pq_contents(pq).dom().contains(w) implies pq_contents(pq)[w] == uncov(
                    adj@[w as int]@,
                    domset@,
                ) by {
                    assert(pq_contents(pq)[w] + occ(row@, w) == uncov(adj@[w as int]@, ds0));
                    assert(occ(row@, w) == edge_mult(ev, node, w));
                    lemma_edge_mult_sym(ev, node, w);
                    assert(occ(adj@[w as int]@, node) == edge_mult(ev, w, node));
                    lemma_uncov_push(adj@[w as int]@, ds0, node);
                }
            }
        } else {
            proof {
                assert(c_prev.dom().contains(node));
                assert(uncov(adj@[node as int]@, domset@) == 0);
                assert forall|w: u32|
                    1 <= w <= g.n && !(#[trigger] pq_contents(pq).dom().contains(w))
                        implies domset@.contains(w) || adj@[w as int]@.len() == 0 || exists|
                    k: int|
                    0 <= k < adj@[w as int]@.len() && domset@.contains(
                        #[trigger] adj@[w as int]@[k],
                    ) by {
                    if w == node {
                        if adj@[node as int]@.len() > 0 {
                            lemma_uncov_zero(adj@[node as int]@, domset@, 0);
                            assert(domset@.contains(adj@[node as int]@[0]));
                        }
                    }
                }
            }
        }
    }
    proof {
        assert forall|v2: u32|
            1 <= v2 <= g.n && touches(ev, v2) implies covered(ev, domset@, v2) by {
            assert(!pq_contents(pq).dom().contains(v2));
            if !domset@.contains(v2) {
                let i = choose|i: int|
                    0 <= i < ev.len() && ((#[trigger] ev[i]).0 == v2 || ev[i].1 == v2);
                lemma_touch_mult(ev, i, v2);
                let wt = if ev[i].0 == v2 {
                    ev[i].1
                } else {
                    ev[i].0
                };
                assert(edge_mult(ev, v2, wt) > 0);
                assert(occ(adj@[v2 as int]@, wt) > 0);
                assert(adj@[v2 as int]@.len() > 0);
                let k = choose|k: int|
                    0 <= k < adj@[v2 as int]@.len() && domset@.contains(
                        #[trigger] adj@[v2 as int]@[k],
                    );
                let w2 = adj@[v2 as int]@[k];
                lemma_occ_at(adj@[v2 as int]@, k, w2);
                assert(edge_mult(ev, v2, w2) > 0);
                lemma_edge_mult_pos(ev, v2, w2);
                let i2 = choose|i2: int|
                    0 <= i2 < ev.len() && edge_joins(#[trigger] ev[i2], v2, w2);
                assert((ev[i2].0 == v2 && domset@.contains(ev[i2].1)) || (ev[i2].1 == v2
                    && domset@.contains(ev[i2].0)));
            }
        }
        assert forall|k: int| 0 <= k < domset@.len() implies touches(
            ev,
            #[trigger] domset@[k],
        ) by {
            let v3 = domset@[k];
            assert(adj@[v3 as int]@.len() > 0);
            let w3 = adj@[v3 as int]@[0];
            lemma_occ_at(adj@[v3 as int]@, 0, w3);
            assert(edge_mult(ev, v3, w3) > 0);
            lemma_edge_mult_pos(ev, v3, w3);
            let i3 = choose|i3: int| 0 <= i3 < ev.len() && edge_joins(#[trigger] ev[i3], v3, w3);
            assert(ev[i3].0 == v3 || ev[i3].1 == v3);
        }
        if forall|v2: u32| 1 <= v2 <= g.n ==> #[trigger] touches(ev, v2) {
            assert forall|v2: u32| 1 <= v2 <= g.n implies covered(ev, domset@, v2) by {
                assert(touches(ev, v2));
            }
        }
    }
    domset
}

} // verus!
