use vstd::prelude::*;

use crate::collision::CollisionMap;
use crate::grid::{cell_index, lemma_index_in_range, Grid};
use crate::pos::{Dir, TilePos};

verus! {

/// Whether `a` and `b` are side by side.
pub open spec fn adjacent(a: TilePos, b: TilePos) -> bool {
    ||| a.x == b.x && (a.y - b.y == 1 || b.y - a.y == 1)
    ||| a.y == b.y && (a.x - b.x == 1 || b.x - a.x == 1)
}

/// `path` is a walk of the player from its first cell: each cell is next to the one before,
/// and every cell after the first is open to the player.
pub open spec fn is_walk(m: CollisionMap, path: Seq<TilePos>) -> bool {
    &&& path.len() >= 1
    &&& forall|k: int| 0 <= k < path.len() - 1 ==> adjacent(#[trigger] path[k], path[k + 1])
    &&& forall|k: int| 1 <= k < path.len() ==> !m.spec_blocked(#[trigger] path[k], true)
}

/// Whether the player, standing on `from`, can walk to `to`.
pub open spec fn reachable(m: CollisionMap, from: TilePos, to: TilePos) -> bool {
    exists|path: Seq<TilePos>|
        #![trigger is_walk(m, path), path.last()]
        is_walk(m, path) && path[0] == from && path.last() == to
}

/// The number of unmarked cells.
pub open spec fn count_false(s: Seq<bool>) -> nat
    decreases s.len(),
{
    if s.len() == 0 {
        0
    } else {
        count_false(s.drop_last()) + if s.last() {
            0nat
        } else {
            1nat
        }
    }
}

proof fn lemma_count_false_mark(s: Seq<bool>, i: int)
    requires
        0 <= i < s.len(),
        !s[i],
    ensures
        count_false(s.update(i, true)) + 1 == count_false(s),
    decreases s.len(),
{
    let u = s.update(i, true);
    if i < s.len() - 1 {
        assert(u.drop_last() =~= s.drop_last().update(i, true));
        lemma_count_false_mark(s.drop_last(), i);
    } else {
        assert(u.drop_last() =~= s.drop_last());
    }
}

/// Every open neighbour of `c` is marked.
pub open spec fn closed(m: CollisionMap, visited: Grid<bool>, c: TilePos) -> bool {
    forall|d: Dir|
        c.can_step(d) && !m.spec_blocked(#[trigger] c.stepped(d), true) ==> visited.spec_get(
            c.stepped(d),
        ) == Some(true)
}

proof fn lemma_walk_extend(m: CollisionMap, path: Seq<TilePos>, c: TilePos, d: Dir)
    requires
        is_walk(m, path),
        path.last() == c,
        c.can_step(d),
        !m.spec_blocked(c.stepped(d), true),
    ensures
        is_walk(m, path.push(c.stepped(d))),
        path.push(c.stepped(d))[0] == path[0],
        path.push(c.stepped(d)).last() == c.stepped(d),
{
    let q = path.push(c.stepped(d));
    assert forall|k: int| 0 <= k < q.len() - 1 implies adjacent(#[trigger] q[k], q[k + 1]) by {
        if k < path.len() - 1 {
            assert(q[k] == path[k] && q[k + 1] == path[k + 1]);
        }
    }
    assert forall|k: int| 1 <= k < q.len() implies !m.spec_blocked(#[trigger] q[k], true) by {
        if k < path.len() {
            assert(q[k] == path[k]);
        }
    }
}

proof fn lemma_closed_grows(m: CollisionMap, v: Grid<bool>, v2: Grid<bool>, c: TilePos)
    requires
        closed(m, v, c),
        forall|q: TilePos| v.spec_get(q) == Some(true) ==> #[trigger] v2.spec_get(q) == Some(true),
    ensures
        closed(m, v2, c),
{
    assert forall|d: Dir|
        c.can_step(d) && !m.spec_blocked(#[trigger] c.stepped(d), true) implies v2.spec_get(
            c.stepped(d),
        ) == Some(true) by {
        assert(v.spec_get(c.stepped(d)) == Some(true));
    }
}

proof fn lemma_walk_marked(
    m: CollisionMap,
    v: Grid<bool>,
    start: TilePos,
    path: Seq<TilePos>,
    k: int,
)
    requires
        is_walk(m, path),
        path[0] == start,
        closed(m, v, start),
        forall|q: TilePos|
            m.in_bounds(q) && #[trigger] v.spec_get(q) == Some(true) ==> closed(m, v, q),
        1 <= k < path.len(),
    ensures
        v.spec_get(path[k]) == Some(true),
    decreases k,
{
    assert(adjacent(path[k - 1], path[k]));
    let d = lemma_adjacent_dir(path[k - 1], path[k]);
    assert(!m.spec_blocked(path[k], true));
    if k > 1 {
        lemma_walk_marked(m, v, start, path, k - 1);
        assert(v.spec_get(path[k - 1]) == Some(true));
        assert(closed(m, v, path[k - 1]));
    }
}

proof fn lemma_adjacent_dir(a: TilePos, b: TilePos) -> (d: Dir)
    requires
        adjacent(a, b),
    ensures
        a.can_step(d),
        a.stepped(d) == b,
{
    if a.x == b.x && b.y - a.y == 1 {
        Dir::Up
    } else if a.x == b.x {
        Dir::Down
    } else if b.x - a.x == 1 {
        Dir::Right
    } else {
        Dir::Left
    }
}

/// Marks the neighbour of `c` in `d`, and puts it on `stack`, when it is open to the player
/// and not marked yet.
fn visit(
    m: &CollisionMap,
    visited: &mut Grid<bool>,
    stack: &mut Vec<TilePos>,
    c: TilePos,
    d: Dir,
)
    requires
        m.wf(),
        old(visited).wf(),
        old(visited).width == m.0.width,
        old(visited).height == m.0.height,
    ensures
        final(visited).wf(),
        final(visited).width == m.0.width,
        final(visited).height == m.0.height,
        c.can_step(d) && !m.spec_blocked(c.stepped(d), true) ==> final(visited).spec_get(
            c.stepped(d),
        ) == Some(true),
        final(stack)@ == old(stack)@ ==> *final(visited) == *old(visited),
        final(stack)@ != old(stack)@ ==> {
            &&& c.can_step(d)
            &&& !m.spec_blocked(c.stepped(d), true)
            &&& final(stack)@ == old(stack)@.push(c.stepped(d))
            &&& count_false(final(visited).cells@) + 1 == count_false(old(visited).cells@)
        },
        forall|q: TilePos|
            #![trigger final(visited).spec_get(q)]
            final(visited).spec_get(q) == if final(stack)@ != old(stack)@ && q == c.stepped(d) {
                Some(true)
            } else {
                old(visited).spec_get(q)
            },
{
    if let Some(nb) = c.checked_neighbor(d) {
        if !m.is_blocked(nb, true) {
            if let Some(seen) = visited.get(nb) {
                if !*seen {
                    proof {
                        lemma_index_in_range(visited.width as int, visited.height as int, nb);
                        lemma_count_false_mark(
                            visited.cells@,
                            cell_index(visited.width as int, nb),
                        );
                    }
                    visited.set(nb, true);
                    stack.push(nb);
                    assert(stack@.len() == old(stack)@.len() + 1);
                }
            }
        }
    }
}

/// Marks, in a grid the size of the map, every cell the player standing on `start` can walk
/// to.
pub fn reachable_cells(m: &CollisionMap, start: TilePos) -> (visited: Grid<bool>)
    requires
        m.wf(),
    ensures
        visited.wf(),
        visited.width == m.0.width,
        visited.height == m.0.height,
        forall|c: TilePos|
            m.in_bounds(c) ==> (#[trigger] visited.spec_get(c) == Some(true) <==> reachable(
                *m,
                start,
                c,
            )),
{
    // the map's cell count fits in a usize
    let _ = m.0.cells.len();
    let mut visited = Grid::new(m.0.width, m.0.height, false);
    let mut stack: Vec<TilePos> = Vec::new();
    proof {
        let path = seq![start];
        assert(is_walk(*m, path) && path[0] == start && path.last() == start);
    }
    visited.set(start, true);
    stack.push(start);
    let mut first = true;
    loop
        invariant
            visited.wf(),
            visited.width == m.0.width,
            visited.height == m.0.height,
            m.wf(),
            forall|c: TilePos|
                m.in_bounds(c) && #[trigger] visited.spec_get(c) == Some(true) ==> reachable(
                    *m,
                    start,
                    c,
                ),
            forall|k: int|
                0 <= k < stack@.len() ==> (#[trigger] stack@[k] == start && first) || (m.in_bounds(
                    stack@[k],
                ) && visited.spec_get(stack@[k]) == Some(true)),
            first ==> stack@ == seq![start],
            !first ==> closed(*m, visited, start),
            forall|c: TilePos|
                m.in_bounds(c) && #[trigger] visited.spec_get(c) == Some(true) && !stack@.contains(c)
                    ==> closed(*m, visited, c),
            m.in_bounds(start) ==> visited.spec_get(start) == Some(true),
        ensures
            stack@.len() == 0,
            !first,
            forall|c: TilePos|
                m.in_bounds(c) && #[trigger] visited.spec_get(c) == Some(true) ==> reachable(
                    *m,
                    start,
                    c,
                ),
            closed(*m, visited, start),
            forall|c: TilePos|
                m.in_bounds(c) && #[trigger] visited.spec_get(c) == Some(true) ==> closed(
                    *m,
                    visited,
                    c,
                ),
            m.in_bounds(start) ==> visited.spec_get(start) == Some(true),
        decreases 2 * count_false(visited.cells@) + stack@.len() + if first {
            1int
        } else {
            0int
        },
    {
        let ghost full = stack@;
        let c = match stack.pop() {
            Some(c) => c,
            None => {
                break ;
            },
        };
        let ghost v0 = visited;
        let ghost s0 = stack@;
        let ghost was_first = first;
        proof {
            assert(full =~= s0.push(c));
            if !(c == start && first) {
                assert(stack@.len() + 1 > stack@.len());
            }
            if c == start {
                let path = seq![start];
                assert(is_walk(*m, path) && path[0] == start && path.last() == start);
            }
        }
        let mut i: usize = 0;
        while i < 4
            invariant
                m.wf(),
                visited.wf(),
                visited.width == m.0.width,
                visited.height == m.0.height,
                i <= 4,
                reachable(*m, start, c),
                forall|q: TilePos|
                    v0.spec_get(q) == Some(true) ==> #[trigger] visited.spec_get(q) == Some(true),
                forall|q: TilePos|
                    m.in_bounds(q) && #[trigger] visited.spec_get(q) == Some(true) ==> reachable(
                        *m,
                        start,
                        q,
                    ),
                forall|q: TilePos|
                    #[trigger] visited.spec_get(q) == Some(true) && v0.spec_get(q) != Some(true)
                        ==> stack@.contains(q),
                stack@.len() >= s0.len(),
                forall|k: int| 0 <= k < s0.len() ==> #[trigger] stack@[k] == s0[k],
                forall|k: int|
                    s0.len() <= k < stack@.len() ==> m.in_bounds(#[trigger] stack@[k])
                        && visited.spec_get(stack@[k]) == Some(true),
                2 * count_false(visited.cells@) + stack@.len() <= 2 * count_false(v0.cells@)
                    + s0.len(),
                forall|d: Dir|
                    d.index() < i && c.can_step(d) && !m.spec_blocked(#[trigger] c.stepped(d), true)
                        ==> visited.spec_get(c.stepped(d)) == Some(true),
            decreases 4 - i,
        {
            let d = Dir::cardinal(i);
            let ghost v1 = visited;
            let ghost st1 = stack@;
            visit(m, &mut visited, &mut stack, c, d);
            proof {
                if stack@ != st1 {
                    let path = choose|path: Seq<TilePos>|
                        #![trigger is_walk(*m, path), path.last()]
                        is_walk(*m, path) && path[0] == start && path.last() == c;
                    lemma_walk_extend(*m, path, c, d);
                    let q = path.push(c.stepped(d));
                    assert(is_walk(*m, q) && q[0] == start && q.last() == c.stepped(d));
                    assert(stack@.last() == c.stepped(d));
                    assert forall|x: TilePos|
                        #[trigger] visited.spec_get(x) == Some(true) && v0.spec_get(x) != Some(true)
                            implies stack@.contains(x) by {
                        if x == c.stepped(d) {
                            assert(stack@[stack@.len() - 1] == x);
                        } else {
                            let k = choose|k: int| 0 <= k < st1.len() && st1[k] == x;
                            assert(stack@[k] == x);
                        }
                    }
                }
                assert forall|d2: Dir|
                    d2.index() < i + 1 && c.can_step(d2) && !m.spec_blocked(
                        #[trigger] c.stepped(d2),
                        true,
                    ) implies visited.spec_get(c.stepped(d2)) == Some(true) by {
                    if d2.index() < i {
                        assert(v1.spec_get(c.stepped(d2)) == Some(true));
                    }
                }
            }
            i = i + 1;
        }
        proof {
            assert(closed(*m, visited, c)) by {
                assert forall|d: Dir|
                    c.can_step(d) && !m.spec_blocked(#[trigger] c.stepped(d), true) implies visited.spec_get(
                        c.stepped(d),
                    ) == Some(true) by {
                    assert(d.index() < 4);
                }
            }
            if !was_first {
                lemma_closed_grows(*m, v0, visited, start);
            } else {
                assert(c == start);
            }
            assert forall|q: TilePos|
                m.in_bounds(q) && #[trigger] visited.spec_get(q) == Some(true) && !stack@.contains(q)
                    implies closed(*m, visited, q) by {
                if q != c {
                    if v0.spec_get(q) == Some(true) {
                        if s0.contains(q) {
                            let k = choose|k: int| 0 <= k < s0.len() && s0[k] == q;
                            assert(stack@[k] == q);
                        }
                        assert(!(s0.push(c)).contains(q)) by {
                            if s0.push(c).contains(q) {
                                let k = choose|k: int| 0 <= k < s0.len() + 1 && s0.push(c)[k] == q;
                                if k < s0.len() {
                                    assert(s0[k] == q);
                                }
                            }
                        }
                        lemma_closed_grows(*m, v0, visited, q);
                    }
                }
            }
        }
        first = false;
    }
    proof {
        assert forall|c: TilePos| m.in_bounds(c) && reachable(*m, start, c) implies #[trigger] visited.spec_get(c) == Some(true) by {
            let path = choose|path: Seq<TilePos>|
                #![trigger is_walk(*m, path), path.last()]
                is_walk(*m, path) && path[0] == start && path.last() == c;
            if path.len() > 1 {
                lemma_walk_marked(*m, visited, start, path, path.len() - 1);
            }
        }
    }
    visited
}

} // verus!
