//! Requests as they reach the core: an edit of a cell, and a plan for a target.

use vstd::prelude::*;
use crate::command::{command_text, draw_nonce, Command};
use crate::coord::{CellState, Coord};
use crate::finder::{find_path, planned_route};
use crate::grid::{Grid, GridError, GridView, Marker};
use crate::route::{costs_fit, is_shortest_route, reachable};

verus! {

/// An edit of one cell.
#[derive(Debug, Clone, Copy, PartialEq, Eq, Structural)]
pub enum Edit {
    /// Place the marker, or take it away where the cell holds it.
    Toggle(Marker),
    /// Move the agent to the cell, unless the cell holds an agent already.
    Relocate,
}

/// A route and the command that tells it.
#[derive(Debug)]
pub struct Plan {
    pub path: Vec<Coord>,
    pub command: Command,
}

/// The grid that `edit` on cell `coord` leaves behind.
pub open spec fn edited(grid: GridView, coord: Coord, edit: Edit) -> GridView
    recommends
        grid.contains(coord),
{
    match edit {
        Edit::Toggle(marker) => grid.toggled(coord, marker),
        Edit::Relocate => if grid.at(coord) == CellState::Agent {
            grid
        } else {
            grid.relocated(coord)
        },
    }
}

/// Carries out `edit` on cell `coord`, or refuses it where `coord` is no cell of the grid.
pub fn apply_edit(grid: &mut Grid, coord: Coord, edit: Edit) -> (res: Result<(), GridError>)
    ensures
        res is Ok <==> old(grid)@.contains(coord),
        res is Ok ==> final(grid)@ == edited(old(grid)@, coord, edit),
        res matches Err(e) ==> e == GridError::OutOfBounds && final(grid)@ == old(grid)@,
        final(grid)@.wf(),
{
    match edit {
        Edit::Toggle(marker) => grid.toggle_marker(coord, marker),
        Edit::Relocate => {
            match grid.query(coord) {
                Ok(CellState::Agent) => Ok(()),
                Ok(_) => grid.relocate_agent(coord),
                Err(e) => Err(e),
            }
        },
    }
}

/// Plans the way of the agent to `target` and words it as a command with the given nonce;
/// nothing where no route leads there.
pub fn plan_with_nonce(grid: &Grid, target: Coord, nonce: u32) -> (res: Option<Plan>)
    requires
        costs_fit(grid@.cells),
    ensures
        res is Some <==> reachable(grid@.cells, grid@.agent, target),
        res matches Some(plan) ==> is_shortest_route(
            grid@.cells,
            grid@.agent,
            target,
            plan.path@,
        ),
        res matches Some(plan) ==> plan.path@.no_duplicates(),
        res matches Some(plan) ==> planned_route(grid@.cells, grid@.agent, target) == Some(
            plan.path@,
        ),
        res matches Some(plan) ==> plan.command.res@ == command_text(plan.path@, nonce),
{
    match find_path(grid, grid.agent(), target) {
        Some(path) => {
            let command = Command::with_nonce(&path, nonce);
            Some(Plan { path, command })
        },
        None => None,
    }
}

/// Plans the way of the agent to `target` and words it as a command with a freshly drawn
/// nonce; nothing where no route leads there.
pub fn plan_request(grid: &Grid, target: Coord) -> (res: Option<Plan>)
    requires
        costs_fit(grid@.cells),
    ensures
        res is Some <==> reachable(grid@.cells, grid@.agent, target),
        res matches Some(plan) ==> is_shortest_route(
            grid@.cells,
            grid@.agent,
            target,
            plan.path@,
        ),
        res matches Some(plan) ==> plan.path@.no_duplicates(),
        res matches Some(plan) ==> planned_route(grid@.cells, grid@.agent, target) == Some(
            plan.path@,
        ),
        res matches Some(plan) ==> exists|nonce: u32|
            plan.command.res@ == command_text(plan.path@, nonce),
{
    let nonce = draw_nonce();
    plan_with_nonce(grid, target, nonce)
}

} // verus!
