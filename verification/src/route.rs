//! Routes on the lattice: what a route is, when one is shortest, and what follows from that.

use vstd::prelude::*;
use crate::coord::{candidate, empty_at, manhattan, successor_list, CellState, Coord};

verus! {

/// A rectangle of cells that coordinates can address: at least one row and one column, all
/// rows of one length.
pub open spec fn rectangular(cells: Seq<Seq<CellState>>) -> bool {
    &&& 1 <= cells.len() <= usize::MAX
    &&& 1 <= cells[0].len() <= usize::MAX
    &&& forall|y: int| 0 <= y < cells.len() ==> (#[trigger] cells[y]).len() == cells[0].len()
}

/// Whether every cost that a search on `cells` can count fits the cost type: the number of
/// cells, plus the largest estimate between two of them.
pub open spec fn costs_fit(cells: Seq<Seq<CellState>>) -> bool {
    cells.len() * cells[0].len() + cells.len() + cells[0].len() <= u32::MAX
}

/// Whether `c` is a cell of `cells` that holds `Empty`: the cells that a route may enter.
pub open spec fn free(cells: Seq<Seq<CellState>>, c: Coord) -> bool {
    empty_at(cells, c.x as int, c.y as int)
}

/// Whether `a` and `b` are neighbours on the lattice: one unit apart along exactly one axis.
pub open spec fn adjacent(a: Coord, b: Coord) -> bool {
    ||| a.y == b.y && (a.x + 1 == b.x || b.x + 1 == a.x)
    ||| a.x == b.x && (a.y + 1 == b.y || b.y + 1 == a.y)
}

/// Whether the successor rule lets the search move from `a` to `b`.
pub open spec fn steps_to(cells: Seq<Seq<CellState>>, a: Coord, b: Coord) -> bool {
    exists|k: int|
        0 <= k < successor_list(cells, a).len() && (#[trigger] successor_list(cells, a)[k]).0 == b
}

/// A walk of the search from `start` to `target`: it begins at `start`, ends at `target`, and
/// every move in it follows the successor rule.
pub open spec fn is_walk(
    cells: Seq<Seq<CellState>>,
    start: Coord,
    target: Coord,
    path: Seq<Coord>,
) -> bool {
    &&& path.len() >= 1
    &&& path.first() == start
    &&& path.last() == target
    &&& forall|i: int| 0 <= i < path.len() - 1 ==> steps_to(cells, #[trigger] path[i], path[i + 1])
}

/// A route from `start` to `target`: it begins at `start`, ends at `target`, the target is
/// `Empty`, every cell after the first is `Empty`, and consecutive cells are neighbours. The
/// first cell may hold anything.
pub open spec fn is_route(
    cells: Seq<Seq<CellState>>,
    start: Coord,
    target: Coord,
    path: Seq<Coord>,
) -> bool {
    &&& path.len() >= 1
    &&& path.first() == start
    &&& path.last() == target
    &&& free(cells, target)
    &&& forall|i: int| 1 <= i < path.len() ==> free(cells, #[trigger] path[i])
    &&& forall|i: int| 0 <= i < path.len() - 1 ==> adjacent(#[trigger] path[i], path[i + 1])
}

/// Whether any route leads from `start` to `target`.
pub open spec fn reachable(cells: Seq<Seq<CellState>>, start: Coord, target: Coord) -> bool {
    exists|path: Seq<Coord>| is_route(cells, start, target, path)
}

/// A route that no other route from `start` to `target` undercuts in length.
pub open spec fn is_shortest_route(
    cells: Seq<Seq<CellState>>,
    start: Coord,
    target: Coord,
    path: Seq<Coord>,
) -> bool {
    &&& is_route(cells, start, target, path)
    &&& forall|other: Seq<Coord>|
        is_route(cells, start, target, other) ==> path.len() <= other.len()
}

/// The successor rule allows exactly the moves to an `Empty` neighbour.
pub proof fn lemma_steps_are_free_neighbours(cells: Seq<Seq<CellState>>, a: Coord, b: Coord)
    requires
        rectangular(cells),
    ensures
        steps_to(cells, a, b) <==> adjacent(a, b) && free(cells, b),
{
    let left = candidate(cells, a.x - 1, a.y as int);
    let right = candidate(cells, a.x + 1, a.y as int);
    let lower = candidate(cells, a.x as int, a.y + 1);
    let upper = candidate(cells, a.x as int, a.y - 1);
    let list = successor_list(cells, a);
    assert(list == left + right + lower + upper);
    assert(forall|y: int| 0 <= y < cells.len() ==> (#[trigger] cells[y]).len() <= usize::MAX);
    if adjacent(a, b) && free(cells, b) {
        let k = if a.y == b.y && b.x + 1 == a.x {
            0
        } else if a.y == b.y && a.x + 1 == b.x {
            left.len() as int
        } else if a.x == b.x && a.y + 1 == b.y {
            (left.len() + right.len()) as int
        } else {
            (left.len() + right.len() + lower.len()) as int
        };
        assert(0 <= k < list.len() && list[k].0 == b);
    }
    if steps_to(cells, a, b) {
        let k = choose|k: int| 0 <= k < list.len() && (#[trigger] list[k]).0 == b;
        if k < left.len() {
            assert(list[k] == left[k]);
        } else if k < left.len() + right.len() {
            assert(list[k] == right[k - left.len()]);
        } else if k < left.len() + right.len() + lower.len() {
            assert(list[k] == lower[k - left.len() - right.len()]);
        } else {
            assert(list[k] == upper[k - left.len() - right.len() - lower.len()]);
        }
    }
}

/// The walks of the search that end on an `Empty` cell are exactly the routes.
pub proof fn lemma_walks_are_routes(
    cells: Seq<Seq<CellState>>,
    start: Coord,
    target: Coord,
    path: Seq<Coord>,
)
    requires
        rectangular(cells),
    ensures
        is_route(cells, start, target, path) <==> is_walk(cells, start, target, path) && free(
            cells,
            target,
        ),
{
    if is_route(cells, start, target, path) {
        assert forall|i: int| 0 <= i < path.len() - 1 implies steps_to(
            cells,
            #[trigger] path[i],
            path[i + 1],
        ) by {
            assert(free(cells, path[i + 1]));
            lemma_steps_are_free_neighbours(cells, path[i], path[i + 1]);
        }
    }
    if is_walk(cells, start, target, path) && free(cells, target) {
        assert forall|i: int| 0 <= i < path.len() - 1 implies adjacent(
            #[trigger] path[i],
            path[i + 1],
        ) && free(cells, path[i + 1]) by {
            lemma_steps_are_free_neighbours(cells, path[i], path[i + 1]);
        }
        assert forall|i: int| 1 <= i < path.len() implies free(cells, #[trigger] path[i]) by {
            assert(adjacent(path[i - 1], path[i - 1 + 1]) && free(cells, path[i - 1 + 1]));
        }
    }
}

/// A shortest route enters no cell twice.
pub proof fn lemma_shortest_route_is_simple(
    cells: Seq<Seq<CellState>>,
    start: Coord,
    target: Coord,
    path: Seq<Coord>,
)
    requires
        is_shortest_route(cells, start, target, path),
    ensures
        path.no_duplicates(),
{
    assert forall|i: int, j: int| 0 <= i < j < path.len() implies path[i] != path[j] by {
        if path[i] == path[j] {
            let cut = path.take(i + 1) + path.skip(j + 1);
            assert(cut.len() == path.len() - (j - i));
            assert forall|k: int| 0 <= k < cut.len() implies cut[k] == (if k <= i {
                path[k]
            } else {
                path[k + (j - i)]
            }) by {}
            assert forall|k: int| 1 <= k < cut.len() implies free(cells, #[trigger] cut[k]) by {
                if k <= i {
                    assert(free(cells, path[k]));
                } else {
                    assert(free(cells, path[k + (j - i)]));
                }
            }
            assert forall|k: int| 0 <= k < cut.len() - 1 implies adjacent(
                #[trigger] cut[k],
                cut[k + 1],
            ) by {
                if k < i {
                    assert(adjacent(path[k], path[k + 1]));
                } else if k == i {
                    assert(adjacent(path[j], path[j + 1]));
                } else {
                    assert(adjacent(path[k + (j - i)], path[k + (j - i) + 1]));
                }
            }
            assert(is_route(cells, start, target, cut));
            assert(false);
        }
    }
}

/// Neighbours lie one unit apart.
pub proof fn lemma_neighbours_are_one_apart(a: Coord, b: Coord)
    requires
        adjacent(a, b),
    ensures
        manhattan(a, b) == 1,
{
}

/// The Manhattan distance obeys the triangle inequality.
pub proof fn lemma_manhattan_triangle(a: Coord, b: Coord, c: Coord)
    ensures
        manhattan(a, c) <= manhattan(a, b) + manhattan(b, c),
{
}

/// A chain of neighbours spans at most as many units as it has moves.
pub proof fn lemma_chain_spans_its_length(path: Seq<Coord>)
    requires
        path.len() >= 1,
        forall|i: int| 0 <= i < path.len() - 1 ==> adjacent(#[trigger] path[i], path[i + 1]),
    ensures
        manhattan(path.first(), path.last()) <= path.len() - 1,
    decreases path.len(),
{
    if path.len() > 1 {
        let front = path.drop_last();
        assert forall|i: int| 0 <= i < front.len() - 1 implies adjacent(
            #[trigger] front[i],
            front[i + 1],
        ) by {
            assert(adjacent(path[i], path[i + 1]));
        }
        lemma_chain_spans_its_length(front);
        let n = path.len() - 2;
        assert(adjacent(path[n], path[n + 1]));
        lemma_neighbours_are_one_apart(path[n], path[n + 1]);
        lemma_manhattan_triangle(path.first(), path[n], path.last());
    }
}

/// The Manhattan distance never exceeds the number of moves of a walk: as an estimate of the
/// cost that is left, it is admissible.
pub proof fn lemma_estimate_is_admissible(
    cells: Seq<Seq<CellState>>,
    from: Coord,
    target: Coord,
    walk: Seq<Coord>,
)
    requires
        rectangular(cells),
        is_walk(cells, from, target, walk),
    ensures
        manhattan(from, target) <= walk.len() - 1,
{
    assert forall|i: int| 0 <= i < walk.len() - 1 implies adjacent(
        #[trigger] walk[i],
        walk[i + 1],
    ) by {
        lemma_steps_are_free_neighbours(cells, walk[i], walk[i + 1]);
    }
    lemma_chain_spans_its_length(walk);
}

/// No route has fewer moves than the Manhattan distance between its ends.
pub proof fn lemma_route_spans_distance(
    cells: Seq<Seq<CellState>>,
    start: Coord,
    target: Coord,
    path: Seq<Coord>,
)
    requires
        is_route(cells, start, target, path),
    ensures
        manhattan(start, target) <= path.len() - 1,
{
    lemma_chain_spans_its_length(path);
}

/// The route that first runs along the row of `a` to the column of `b`, then along that
/// column to `b`.
pub open spec fn elbow(a: Coord, b: Coord) -> Seq<Coord>
    decreases manhattan(a, b),
{
    if a.x < b.x {
        seq![a] + elbow(Coord { x: (a.x + 1) as usize, y: a.y }, b)
    } else if a.x > b.x {
        seq![a] + elbow(Coord { x: (a.x - 1) as usize, y: a.y }, b)
    } else if a.y < b.y {
        seq![a] + elbow(Coord { x: a.x, y: (a.y + 1) as usize }, b)
    } else if a.y > b.y {
        seq![a] + elbow(Coord { x: a.x, y: (a.y - 1) as usize }, b)
    } else {
        seq![a]
    }
}

/// Whether `c` lies in the rectangle that `a` and `b` span.
pub open spec fn between(a: Coord, b: Coord, c: Coord) -> bool {
    &&& (a.x <= c.x <= b.x || b.x <= c.x <= a.x)
    &&& (a.y <= c.y <= b.y || b.y <= c.y <= a.y)
}

/// The elbow from `a` to `b` is a chain of neighbours from `a` to `b` that comes one unit
/// closer to `b` with every move and stays in the rectangle that the two span.
pub proof fn lemma_elbow(a: Coord, b: Coord)
    ensures
        elbow(a, b).len() == manhattan(a, b) + 1,
        elbow(a, b).first() == a,
        elbow(a, b).last() == b,
        forall|i: int|
            0 <= i < elbow(a, b).len() ==> manhattan(#[trigger] elbow(a, b)[i], b) == manhattan(
                a,
                b,
            ) - i,
        forall|i: int| 0 <= i < elbow(a, b).len() ==> between(a, b, #[trigger] elbow(a, b)[i]),
        forall|i: int|
            0 <= i < elbow(a, b).len() - 1 ==> adjacent(#[trigger] elbow(a, b)[i], elbow(a, b)[i + 1]),
    decreases manhattan(a, b),
{
    if a != b {
        let next = if a.x < b.x {
            Coord { x: (a.x + 1) as usize, y: a.y }
        } else if a.x > b.x {
            Coord { x: (a.x - 1) as usize, y: a.y }
        } else if a.y < b.y {
            Coord { x: a.x, y: (a.y + 1) as usize }
        } else {
            Coord { x: a.x, y: (a.y - 1) as usize }
        };
        let rest = elbow(next, b);
        let whole = elbow(a, b);
        lemma_elbow(next, b);
        assert(whole == seq![a] + rest);
        assert(adjacent(a, next));
        assert forall|i: int| 0 <= i < whole.len() implies manhattan(#[trigger] whole[i], b)
            == manhattan(a, b) - i && between(a, b, whole[i]) by {
            if i > 0 {
                assert(whole[i] == rest[i - 1]);
                assert(between(next, b, rest[i - 1]));
            }
        }
        assert forall|i: int| 0 <= i < whole.len() - 1 implies adjacent(
            #[trigger] whole[i],
            whole[i + 1],
        ) by {
            if i > 0 {
                assert(whole[i] == rest[i - 1]);
                assert(whole[i + 1] == rest[i - 1 + 1]);
                assert(adjacent(rest[i - 1], rest[i - 1 + 1]));
            } else {
                assert(whole[1] == rest[0]);
            }
        }
    }
}

/// Whether `cells` holds no obstacle for an agent that stands on `start`: every other cell
/// is `Empty`.
pub open spec fn obstacle_free(cells: Seq<Seq<CellState>>, start: Coord) -> bool {
    forall|c: Coord|
        c.y < cells.len() && c.x < cells[0].len() && c != start ==> #[trigger] free(cells, c)
}

/// On a grid without obstacles the elbow is a route to every `Empty` target, so that every
/// such target is reachable.
pub proof fn lemma_open_grid_is_connected(cells: Seq<Seq<CellState>>, start: Coord, target: Coord)
    requires
        rectangular(cells),
        start.y < cells.len(),
        start.x < cells[0].len(),
        obstacle_free(cells, start),
        free(cells, target),
    ensures
        is_route(cells, start, target, elbow(start, target)),
        reachable(cells, start, target),
{
    let direct = elbow(start, target);
    lemma_elbow(start, target);
    assert(cells[target.y as int].len() == cells[0].len());
    assert forall|i: int| 1 <= i < direct.len() implies free(cells, #[trigger] direct[i]) by {
        assert(between(start, target, direct[i]));
        assert(manhattan(direct[i], target) == manhattan(start, target) - i);
        assert(direct[i] != start);
    }
}

/// On a grid without obstacles a shortest route has exactly as many moves as the Manhattan
/// distance between its ends.
pub proof fn lemma_open_grid_distance(
    cells: Seq<Seq<CellState>>,
    start: Coord,
    target: Coord,
    path: Seq<Coord>,
)
    requires
        rectangular(cells),
        start.y < cells.len(),
        start.x < cells[0].len(),
        obstacle_free(cells, start),
        is_shortest_route(cells, start, target, path),
    ensures
        path.len() - 1 == manhattan(start, target),
{
    lemma_route_spans_distance(cells, start, target, path);
    lemma_open_grid_is_connected(cells, start, target);
    lemma_elbow(start, target);
}

} // verus!
