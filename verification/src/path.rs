//! The route: from the start to the nearest system not yet seen, again and
//! again, and home at the end.

use crate::graph::{outcome_view, StarGraph, StarMap};
use crate::reach::{
    lemma_reachable_on_map, lemma_reachable_symmetric, lemma_reachable_transitive,
    lemma_walk_join, lemma_walk_reaches,
};
use vstd::prelude::*;

verus! {

/// Of the best way so far and one newly found, the one to keep: the new one
/// only where it is strictly cheaper, or the first to be found at all.
pub open spec fn nearer(
    best: Option<(u64, Seq<usize>)>,
    found: Option<(u64, Seq<usize>)>,
) -> Option<(u64, Seq<usize>)> {
    match found {
        None => best,
        Some((cost, _)) => match best {
            None => found,
            Some((least, _)) => if cost < least {
                found
            } else {
                best
            },
        },
    }
}

/// Keeps the cheaper of two ways; of two that cost the same, the earlier.
pub fn keep_nearer(best: Option<(u64, Vec<usize>)>, found: Option<(u64, Vec<usize>)>) -> (kept:
    Option<(u64, Vec<usize>)>)
    ensures
        outcome_view(kept) == nearer(outcome_view(best), outcome_view(found)),
{
    match found {
        None => best,
        Some((cost, path)) => match best {
            None => Some((cost, path)),
            Some((least, held)) => if cost < least {
                Some((cost, path))
            } else {
                Some((least, held))
            },
        },
    }
}

/// The way that is kept after the systems below `upto` have been tried in
/// turn as targets from `current`, the visited ones left out.
pub open spec fn nearest_unseen(m: StarMap, visited: Seq<bool>, current: usize, upto: nat) -> Option<
    (u64, Seq<usize>),
>
    decreases upto,
{
    if upto == 0 {
        None
    } else {
        let target = (upto - 1) as usize;
        let before = nearest_unseen(m, visited, current, (upto - 1) as nat);
        if target < visited.len() && !visited[target as int] {
            nearer(before, m.search(current, target))
        } else {
            before
        }
    }
}

/// Whether `best` leads from `current` to the nearest system not yet seen,
/// and among several equally near to the one with the lowest index; or is
/// nothing where no unseen system can be reached.
pub open spec fn leads_to_nearest(
    m: StarMap,
    visited: Seq<bool>,
    current: usize,
    best: Option<(u64, Seq<usize>)>,
) -> bool {
    match best {
        None => forall|t: usize|
            t < m.nodes && t < visited.len() && !visited[t as int] ==> !#[trigger] m.reachable(
                current,
                t,
            ),
        Some((cost, path)) => {
            &&& path.len() > 0
            &&& path.last() < visited.len()
            &&& !visited[path.last() as int]
            &&& m.is_shortest(path, current, path.last())
            &&& cost == path.len() - 1
            &&& forall|t: usize, q: Seq<usize>|
                t < visited.len() && !visited[t as int] && #[trigger] m.connects(q, current, t)
                    ==> path.len() <= q.len() && (t < path.last() ==> path.len() < q.len())
        },
    }
}

/// Searches from `current` for each system not yet seen, in the order of
/// their indices, and keeps the shortest way found; of several equally short
/// the first.
pub fn nearest_unvisited(graph: &StarGraph, visited: &Vec<bool>, current: usize) -> (best: Option<
    (u64, Vec<usize>),
>)
    requires
        graph.wf(),
        visited.len() == graph@.nodes,
    ensures
        outcome_view(best) == nearest_unseen(graph@, visited@, current, graph@.nodes),
        leads_to_nearest(graph@, visited@, current, outcome_view(best)),
{
    let node_count = graph.node_count();
    let mut best: Option<(u64, Vec<usize>)> = None;
    let mut target: usize = 0;
    while target < node_count
        invariant
            graph.wf(),
            node_count == graph@.nodes,
            visited.len() == node_count,
            target <= node_count,
            outcome_view(best) == nearest_unseen(graph@, visited@, current, target as nat),
            match outcome_view(best) {
                None => forall|t: usize|
                    t < target && !visited@[t as int] ==> !#[trigger] graph@.reachable(current, t),
                Some((cost, path)) => {
                    &&& path.len() > 0
                    &&& path.last() < target
                    &&& !visited@[path.last() as int]
                    &&& graph@.is_shortest(path, current, path.last())
                    &&& cost == path.len() - 1
                    &&& forall|t: usize, q: Seq<usize>|
                        t < target && !visited@[t as int] && #[trigger] graph@.connects(
                            q,
                            current,
                            t,
                        ) ==> path.len() <= q.len() && (t < path.last() ==> path.len() < q.len())
                },
            },
        decreases node_count - target,
    {
        if !visited[target] {
            let found = graph.shortest_path(current, target);
            let ghost held = outcome_view(best);
            let ghost seen = outcome_view(found);
            best = keep_nearer(best, found);
            proof {
                let kept = outcome_view(best);
                match kept {
                    None => {
                        assert forall|t: usize| t < target + 1 && !visited@[t as int] implies !(
                        #[trigger] graph@.reachable(current, t)) by {}
                    },
                    Some((cost, path)) => {
                        assert forall|t: usize, q: Seq<usize>|
                            t < target + 1 && !visited@[t as int] && #[trigger] graph@.connects(
                                q,
                                current,
                                t,
                            ) implies path.len() <= q.len() && (t < path.last() ==> path.len()
                            < q.len()) by {
                            assert(graph@.reachable(current, t));
                        }
                    },
                }
            }
        }
        target += 1;
    }
    best
}

/// Whether `node` comes on `path` after the path's first system.
pub open spec fn on_leg(path: Seq<usize>, node: int) -> bool {
    exists|k: int| 1 <= k < path.len() && #[trigger] path[k] == node
}

/// The marks after `path` has been followed: every system on it behind the
/// first is marked, and what was marked stays marked.
pub open spec fn marked(visited: Seq<bool>, path: Seq<usize>) -> Seq<bool> {
    Seq::new(visited.len(), |i: int| visited[i] || on_leg(path, i))
}

/// How many systems are not marked.
pub open spec fn unseen(visited: Seq<bool>) -> nat
    decreases visited.len(),
{
    if visited.len() == 0 {
        0
    } else {
        unseen(visited.drop_last()) + if visited.last() {
            0nat
        } else {
            1nat
        }
    }
}

/// Where every mark stays, no more systems are unmarked than before; and
/// where a system gets its mark, fewer are.
pub proof fn lemma_unseen_shrinks(before: Seq<bool>, after: Seq<bool>)
    requires
        before.len() == after.len(),
        forall|i: int| 0 <= i < before.len() && before[i] ==> after[i],
    ensures
        unseen(after) <= unseen(before),
        (exists|t: int| 0 <= t < before.len() && !before[t] && after[t]) ==> unseen(after)
            < unseen(before),
    decreases before.len(),
{
    if before.len() > 0 {
        lemma_unseen_shrinks(before.drop_last(), after.drop_last());
        if exists|t: int| 0 <= t < before.len() && !before[t] && after[t] {
            let t = choose|t: int| 0 <= t < before.len() && !before[t] && after[t];
            if t < before.len() - 1 {
                assert(!before.drop_last()[t] && after.drop_last()[t]);
            }
        }
    }
}

/// Goes along `path` from its first system, which is where the route stands:
/// each further system is put on the route and marked. Returns the system
/// where the path ends.
pub fn follow_path(route: &mut Vec<usize>, visited: &mut Vec<bool>, path: &Vec<usize>) -> (end:
    usize)
    requires
        path.len() > 0,
        forall|k: int| 1 <= k < path.len() ==> path[k] < old(visited).len(),
    ensures
        end == path@.last(),
        final(route)@ == old(route)@ + path@.skip(1),
        final(visited)@ == marked(old(visited)@, path@),
{
    let mut k: usize = 1;
    while k < path.len()
        invariant
            1 <= k <= path.len(),
            forall|j: int| 1 <= j < path.len() ==> path[j] < old(visited).len(),
            route@ == old(route)@ + path@.subrange(1, k as int),
            visited@ == marked(old(visited)@, path@.take(k as int)),
        decreases path.len() - k,
    {
        let idx = path[k];
        route.push(idx);
        visited.set(idx, true);
        proof {
            let was = path@.take(k as int);
            let now = path@.take(k + 1);
            assert(path@.subrange(1, k + 1) == path@.subrange(1, k as int).push(idx));
            assert forall|i: int| 0 <= i < visited@.len() implies visited@[i] == marked(
                old(visited)@,
                now,
            )[i] by {
                if on_leg(now, i) {
                    let c = choose|c: int| 1 <= c < now.len() && #[trigger] now[c] == i;
                    if c < k {
                        assert(was[c] == i);
                    }
                }
                if on_leg(was, i) {
                    let c = choose|c: int| 1 <= c < was.len() && #[trigger] was[c] == i;
                    assert(now[c] == i);
                }
                if i == idx {
                    assert(now[k as int] == i);
                }
            }
            assert(visited@ == marked(old(visited)@, now));
        }
        k += 1;
    }
    proof {
        assert(path@.take(k as int) == path@);
        assert(path@.subrange(1, k as int) == path@.skip(1));
    }
    path[path.len() - 1]
}

/// Puts the systems of `path` behind its first on the route.
pub fn append_leg(route: &mut Vec<usize>, path: &Vec<usize>)
    requires
        path.len() > 0,
    ensures
        final(route)@ == old(route)@ + path@.skip(1),
{
    let mut k: usize = 1;
    while k < path.len()
        invariant
            1 <= k <= path.len(),
            route@ == old(route)@ + path@.subrange(1, k as int),
        decreases path.len() - k,
    {
        route.push(path[k]);
        proof {
            assert(path@.subrange(1, k + 1) == path@.subrange(1, k as int).push(path[k as int]));
        }
        k += 1;
    }
    proof {
        assert(path@.subrange(1, k as int) == path@.skip(1));
    }
}

/// The route once the way home is taken: where the route does not stand at
/// `start` already, the way that the search gives from `current` to `start`
/// is put behind it; where the search gives none, the route stays open.
pub open spec fn homeward(m: StarMap, start: usize, current: usize, route: Seq<usize>) -> Seq<
    usize,
> {
    if current == start {
        route
    } else {
        match m.search(current, start) {
            Some((_, back)) => route + back.skip(1),
            None => route,
        }
    }
}

/// The whole route, given the part gone so far: as long as the search finds a
/// system not yet seen, the way to the nearest is followed; then the way home
/// is taken. A way that marks no new system ends the tour as well; the
/// search gives none such.
pub open spec fn tour(
    m: StarMap,
    start: usize,
    visited: Seq<bool>,
    current: usize,
    route: Seq<usize>,
) -> Seq<usize>
    decreases unseen(visited),
{
    match nearest_unseen(m, visited, current, m.nodes) {
        Some((_, path)) => {
            if path.len() > 0 && unseen(marked(visited, path)) < unseen(visited) {
                tour(m, start, marked(visited, path), path.last(), route + path.skip(1))
            } else {
                homeward(m, start, current, route)
            }
        },
        None => homeward(m, start, current, route),
    }
}

/// The marks at the outset: the start alone is marked.
pub open spec fn only_start(m: StarMap, start: usize) -> Seq<bool> {
    Seq::new(m.nodes, |i: int| i == start)
}

/// The route on the map `m` from `start`.
pub open spec fn planned_route(m: StarMap, start: usize) -> Seq<usize> {
    tour(m, start, only_start(m, start), start, seq![start])
}

/// Plans the round trip from `start_idx`: from where the route stands it goes
/// on, by a shortest way, to the nearest system not yet seen (of several
/// equally near, to the one with the lowest index), until no unseen system
/// can be reached; then it goes home by a shortest way.
///
/// The route begins and ends at the start, each system on it is joined by a
/// gate to the next, and the systems on it are those that can be reached
/// from the start, each at least once.
pub fn optimal_route(graph: &StarGraph, start_idx: usize) -> (route: Vec<usize>)
    requires
        graph.wf(),
        start_idx < graph@.nodes,
    ensures
        route@ == planned_route(graph@, start_idx),
        route@.len() > 0,
        route@[0] == start_idx,
        route@.last() == start_idx,
        graph@.is_walk(route@),
        forall|v: usize| #[trigger] graph@.reachable(start_idx, v) ==> route@.contains(v),
        forall|i: int| 0 <= i < route@.len() ==> graph@.reachable(start_idx, #[trigger] route@[i]),
{
    let node_count = graph.node_count();
    let mut visited: Vec<bool> = vec![false; node_count];
    let mut route: Vec<usize> = Vec::new();

    let mut current = start_idx;
    route.push(current);
    visited.set(current, true);
    proof {
        assert(visited@ == only_start(graph@, start_idx));
        assert(route@ == seq![start_idx]);
        assert(route@[0] == start_idx);
    }

    loop
        invariant
            graph.wf(),
            node_count == graph@.nodes,
            visited.len() == node_count,
            start_idx < node_count,
            current < node_count,
            route@.len() > 0,
            route@[0] == start_idx,
            route@.last() == current,
            graph@.is_walk(route@),
            forall|i: int| 0 <= i < node_count ==> (visited@[i] <==> route@.contains(i as usize)),
            planned_route(graph@, start_idx) == tour(
                graph@,
                start_idx,
                visited@,
                current,
                route@,
            ),
        ensures
            planned_route(graph@, start_idx) == homeward(graph@, start_idx, current, route@),
            forall|t: usize|
                t < node_count && !visited@[t as int] ==> !#[trigger] graph@.reachable(current, t),
        decreases unseen(visited@),
    {
        let best = nearest_unvisited(graph, &visited, current);
        match best {
            Some((_cost, path)) => {
                let ghost route_before = route@;
                let ghost visited_before = visited@;
                proof {
                    assert(graph@.connects(path@, current, path@.last()));
                    assert(forall|k: int| 0 <= k < path@.len() ==> (#[trigger] path@[k]) < node_count);
                    assert(route@.contains(current));
                    assert(visited@[current as int]);
                }
                current = follow_path(&mut route, &mut visited, &path);
                proof {
                    let target = path@.last();
                    lemma_walk_join(graph@, route_before, path@);
                    assert(path@.len() >= 2);
                    assert(on_leg(path@, target as int)) by {
                        assert(path@[path@.len() - 1] == target);
                    }
                    assert(!visited_before[target as int] && visited@[target as int]);
                    lemma_unseen_shrinks(visited_before, visited@);
                    assert forall|i: int| 0 <= i < node_count implies (visited@[i]
                        <==> route@.contains(i as usize)) by {
                        if on_leg(path@, i) {
                            let c = choose|c: int| 1 <= c < path@.len() && #[trigger] path@[c] == i;
                            assert(route@[route_before.len() + c - 1] == i as usize);
                        }
                        if route@.contains(i as usize) {
                            let c = choose|c: int| 0 <= c < route@.len() && route@[c] == i as usize;
                            if c < route_before.len() {
                                assert(route_before[c] == i as usize);
                                assert(route_before.contains(i as usize));
                            } else {
                                assert(path@[c - route_before.len() + 1] == i);
                            }
                        }
                        if visited_before[i] {
                            let c = choose|c: int|
                                0 <= c < route_before.len() && route_before[c] == i as usize;
                            assert(route@[c] == i as usize);
                        }
                    }
                }
            },
            None => {
                break ;
            },
        }
    }

    proof {
        lemma_walk_reaches(graph@, route@, route@.len() - 1);
        lemma_reachable_symmetric(graph@, start_idx, current);
        assert forall|v: usize| #[trigger]
            graph@.reachable(start_idx, v) implies route@.contains(v) by {
            lemma_reachable_transitive(graph@, current, start_idx, v);
            lemma_reachable_on_map(graph@, start_idx, v);
            assert(visited@[v as int]);
        }
    }
    if current != start_idx {
        let ghost route_before = route@;
        let back = graph.shortest_path(current, start_idx);
        match back {
            Some((_cost, way)) => {
                append_leg(&mut route, &way);
                proof {
                    lemma_walk_join(graph@, route_before, way@);
                    assert forall|v: usize| route_before.contains(v) implies route@.contains(v) by {
                        let c = choose|c: int| 0 <= c < route_before.len() && route_before[c] == v;
                        assert(route@[c] == v);
                    }
                }
            },
            None => {},
        }
    }
    proof {
        assert forall|i: int| 0 <= i < route@.len() implies graph@.reachable(
            start_idx,
            #[trigger] route@[i],
        ) by {
            lemma_walk_reaches(graph@, route@, i);
        }
    }
    route
}

/// How many gates a route passes: one fewer than it has systems, and none
/// where it is empty.
pub fn jump_total(route: &Vec<usize>) -> (jumps: usize)
    ensures
        jumps == if route.len() == 0 {
            0
        } else {
            route.len() - 1
        },
{
    if route.len() == 0 {
        0
    } else {
        route.len() - 1
    }
}

/// Whether the system at position `at` of the route stands on the route
/// before that position too.
pub fn is_revisit(route: &Vec<usize>, at: usize) -> (again: bool)
    requires
        at < route.len(),
    ensures
        again == route@.take(at as int).contains(route[at as int]),
{
    let mut k: usize = 0;
    while k < at
        invariant
            k <= at < route.len(),
            forall|j: int| 0 <= j < k ==> route[j] != route[at as int],
        decreases at - k,
    {
        if route[k] == route[at] {
            proof {
                assert(route@.take(at as int)[k as int] == route[at as int]);
            }
            return true;
        }
        k += 1;
    }
    proof {
        assert forall|j: int| 0 <= j < at implies route@.take(at as int)[j] != route[at as int] by {}
    }
    false
}

} // verus!
