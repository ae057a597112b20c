//! The path finder: a shortest route from a start cell to a target cell.

use vstd::prelude::*;
use crate::coord::{rows, CellState, Coord};
use crate::grid::{Grid, GridView};
use crate::route::{
    costs_fit, free, is_route, is_shortest_route, is_walk, lemma_shortest_route_is_simple,
    lemma_walks_are_routes, reachable, rectangular,
};

verus! {

/// The path that the A* search of the `pathfinding` crate returns on these cells from `start`
/// to `target`, with the successor rule, the Manhattan estimate and the goal test of this
/// library. Among the shortest walks the search settles on one by the order in which it meets
/// them; that choice depends on nothing but these three values.
pub uninterp spec fn astar_route(cells: Seq<Seq<CellState>>, start: Coord, target: Coord) -> Option<Seq<Coord>>;

/// The outcome that the path finder owes for a request: nothing where the target is not an
/// `Empty` cell, and else what the search returns.
pub open spec fn planned_route(
    cells: Seq<Seq<CellState>>,
    start: Coord,
    target: Coord,
) -> Option<Seq<Coord>> {
    if free(cells, target) {
        astar_route(cells, start, target)
    } else {
        None
    }
}

/// Runs `pathfinding::directed::astar::astar` from `start` with `Coord::successors` on
/// `field`, `Coord::distance` to `target` as the estimate and `Coord::is_at` as the goal test,
/// and keeps the path of what it returns.
///
/// Believed of that function, as its documentation states it: it returns a walk from the
/// start to a node that passes the goal test, made of moves that the successor function
/// offers, and no such walk has fewer moves; it returns nothing exactly where there is no
/// such walk. That the walk is a shortest one rests on an estimate that never exceeds the
/// true cost, which `lemma_estimate_is_admissible` proves of the Manhattan distance. The
/// search keeps its nodes in an insertion-ordered map and a binary heap, so that its choice
/// among equal walks is a function of the arguments: `astar_route` names it.
///
/// The bound on the grid keeps the additions of the search within `u32`.
#[verifier::external_body]
fn astar_search(
    field: &Vec<Vec<CellState>>,
    start: Coord,
    target: Coord,
) -> (res: Option<Vec<Coord>>)
    requires
        rectangular(rows(field)),
        costs_fit(rows(field)),
        free(rows(field), target),
    ensures
        res matches Some(path) ==> astar_route(rows(field), start, target) == Some(path@),
        res is None ==> astar_route(rows(field), start, target) is None,
        res matches Some(path) ==> is_walk(rows(field), start, target, path@),
        res matches Some(path) ==> forall|other: Seq<Coord>|
            is_walk(rows(field), start, target, other) ==> path@.len() <= other.len(),
        res is None ==> forall|other: Seq<Coord>| !is_walk(rows(field), start, target, other),
{
    pathfinding::directed::astar::astar(
        &start,
        |c| c.successors(field),
        |c| c.distance(target),
        |c| c.is_at(target),
    ).map(|found| found.0)
}

/// A shortest route on `grid` from `start` to `target`, or nothing where there is none.
///
/// The target must be an `Empty` cell, the start may hold anything; where both are the same
/// `Empty` cell the route is that cell alone. The same cells, start and target always give
/// the same route.
///
/// The search counts its costs in `u32`, so the grid must be small enough for them:
/// `Grid::costs_fit` tells whether it is.
pub fn find_path(grid: &Grid, start: Coord, target: Coord) -> (res: Option<Vec<Coord>>)
    requires
        costs_fit(grid@.cells),
    ensures
        res is Some <==> reachable(grid@.cells, start, target),
        !free(grid@.cells, target) ==> res is None,
        res matches Some(path) ==> is_shortest_route(grid@.cells, start, target, path@),
        res matches Some(path) ==> path@.no_duplicates(),
        res matches Some(path) ==> planned_route(grid@.cells, start, target) == Some(path@),
        res is None ==> planned_route(grid@.cells, start, target) is None,
{
    let ghost cells = grid@.cells;
    let field = grid.field();
    proof {
        if target.y < cells.len() {
            assert(cells[target.y as int].len() == cells[0].len());
        }
    }
    match grid.query(target) {
        Ok(CellState::Empty) => {},
        _ => {
            return None;
        },
    }
    let res = astar_search(field, start, target);
    proof {
        if res is Some {
            let path = res->0@;
            lemma_walks_are_routes(cells, start, target, path);
            assert forall|other: Seq<Coord>|
                is_route(cells, start, target, other) implies path.len() <= other.len() by {
                lemma_walks_are_routes(cells, start, target, other);
            }
            lemma_shortest_route_is_simple(cells, start, target, path);
        } else {
            assert forall|other: Seq<Coord>| !is_route(cells, start, target, other) by {
                lemma_walks_are_routes(cells, start, target, other);
            }
        }
    }
    res
}

/// Planning is deterministic: what `find_path` returns is `planned_route` of the cells, the
/// start and the target, so that two requests which agree in these three are owed the same
/// route, whatever else differs between the grids.
pub proof fn lemma_planning_is_deterministic(a: GridView, b: GridView, start: Coord, target: Coord)
    requires
        a.cells == b.cells,
    ensures
        planned_route(a.cells, start, target) == planned_route(b.cells, start, target),
{
}

} // verus!
