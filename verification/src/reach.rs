//! Walks on a star map, and what can be reached from where.

use crate::graph::{joins, StarMap};
use vstd::prelude::*;

verus! {

/// A gate can be passed in both directions.
pub proof fn lemma_linked_symmetric(m: StarMap, a: usize, b: usize)
    requires
        m.linked(a, b),
    ensures
        m.linked(b, a),
{
    let k = choose|k: int| 0 <= k < m.edges.len() && joins(#[trigger] m.edges[k], a, b);
    assert(joins(m.edges[k], b, a));
}

/// A walk that ends where another begins can be followed by it: the two make
/// one walk from the start of the first to the end of the second.
pub proof fn lemma_walk_join(m: StarMap, p: Seq<usize>, q: Seq<usize>)
    requires
        m.is_walk(p),
        m.is_walk(q),
        p[p.len() - 1] == q[0],
    ensures
        m.connects(p + q.skip(1), p[0], q[q.len() - 1]),
{
    let r = p + q.skip(1);
    assert forall|i: int| 0 <= i < r.len() implies (#[trigger] r[i]) < m.nodes by {
        if i >= p.len() {
            assert(r[i] == q[i - p.len() + 1]);
        }
    }
    assert forall|i: int| 0 <= i < r.len() - 1 implies m.linked(#[trigger] r[i], r[i + 1]) by {
        if i < p.len() - 1 {
            assert(m.linked(p[i], p[i + 1]));
        } else if i == p.len() - 1 {
            assert(r[i] == q[0]);
            assert(r[i + 1] == q[1]);
            assert(m.linked(q[0], q[1]));
        } else {
            let j = i - p.len() + 1;
            assert(r[i] == q[j]);
            assert(r[i + 1] == q[j + 1]);
            assert(m.linked(q[j], q[j + 1]));
        }
    }
}

/// A walk can be gone backwards.
pub proof fn lemma_walk_reverse(m: StarMap, p: Seq<usize>)
    requires
        m.is_walk(p),
    ensures
        m.connects(p.reverse(), p[p.len() - 1], p[0]),
{
    let r = p.reverse();
    assert forall|i: int| 0 <= i < r.len() - 1 implies m.linked(#[trigger] r[i], r[i + 1]) by {
        let j = p.len() - 2 - i;
        assert(r[i] == p[j + 1]);
        assert(r[i + 1] == p[j]);
        assert(m.linked(p[j], p[j + 1]));
        lemma_linked_symmetric(m, p[j], p[j + 1]);
    }
}

/// The first `k` systems of a walk are a walk.
pub proof fn lemma_walk_prefix(m: StarMap, p: Seq<usize>, k: int)
    requires
        m.is_walk(p),
        0 < k <= p.len(),
    ensures
        m.connects(p.take(k), p[0], p[k - 1]),
{
    let r = p.take(k);
    assert forall|i: int| 0 <= i < r.len() - 1 implies m.linked(#[trigger] r[i], r[i + 1]) by {
        assert(m.linked(p[i], p[i + 1]));
    }
}

/// Every system of the map can be reached from itself.
pub proof fn lemma_reachable_reflexive(m: StarMap, a: usize)
    requires
        a < m.nodes,
    ensures
        m.reachable(a, a),
{
    assert(m.connects(seq![a], a, a));
}

/// What can be reached from a system is on the map, and so is the system.
pub proof fn lemma_reachable_on_map(m: StarMap, a: usize, b: usize)
    requires
        m.reachable(a, b),
    ensures
        a < m.nodes,
        b < m.nodes,
{
    let p = choose|p: Seq<usize>| m.connects(p, a, b);
    assert(p[0] < m.nodes);
    assert(p[p.len() - 1] < m.nodes);
}

/// Where `b` can be reached from `a`, `a` can be reached from `b`.
pub proof fn lemma_reachable_symmetric(m: StarMap, a: usize, b: usize)
    requires
        m.reachable(a, b),
    ensures
        m.reachable(b, a),
{
    let p = choose|p: Seq<usize>| m.connects(p, a, b);
    lemma_walk_reverse(m, p);
    assert(m.connects(p.reverse(), b, a));
}

/// Where `b` can be reached from `a` and `c` from `b`, `c` can be reached
/// from `a`.
pub proof fn lemma_reachable_transitive(m: StarMap, a: usize, b: usize, c: usize)
    requires
        m.reachable(a, b),
        m.reachable(b, c),
    ensures
        m.reachable(a, c),
{
    let p = choose|p: Seq<usize>| m.connects(p, a, b);
    let q = choose|q: Seq<usize>| m.connects(q, b, c);
    lemma_walk_join(m, p, q);
    assert(m.connects(p + q.skip(1), a, c));
}

/// Every system on a walk can be reached from the walk's first.
pub proof fn lemma_walk_reaches(m: StarMap, p: Seq<usize>, i: int)
    requires
        m.is_walk(p),
        0 <= i < p.len(),
    ensures
        m.reachable(p[0], p[i]),
{
    lemma_walk_prefix(m, p, i + 1);
    assert(m.connects(p.take(i + 1), p[0], p[i]));
}

} // verus!
