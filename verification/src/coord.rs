//! Grid coordinates, cell states and the successor rule of the search.

use vstd::prelude::*;

verus! {

/// A cell address: column `x`, row `y`.
#[derive(Debug, Clone, Copy, PartialEq, Eq, Hash, Structural)]
pub struct Coord {
    pub x: usize,
    pub y: usize,
}

/// What a cell of the grid holds.
#[derive(Debug, Clone, Copy, PartialEq, Eq, Structural)]
pub enum CellState {
    Enemy,
    Empty,
    Agent,
    Tile,
}

/// The rows of a field as sequences: `rows(field)[y][x]` is the state of cell `(x, y)`.
pub open spec fn rows(field: &Vec<Vec<CellState>>) -> Seq<Seq<CellState>> {
    Seq::new(field@.len(), |y: int| field@[y]@)
}

/// Whether `(x, y)` addresses a cell of `cells` and that cell holds `Empty`.
pub open spec fn empty_at(cells: Seq<Seq<CellState>>, x: int, y: int) -> bool {
    0 <= y < cells.len() && 0 <= x < cells[y].len() && cells[y][x] == CellState::Empty
}

/// The candidate `(x, y)` as a list: itself at cost 1 where it is an `Empty` cell, else nothing.
pub open spec fn candidate(cells: Seq<Seq<CellState>>, x: int, y: int) -> Seq<(Coord, u32)> {
    if empty_at(cells, x, y) {
        seq![(Coord { x: x as usize, y: y as usize }, 1u32)]
    } else {
        Seq::empty()
    }
}

/// The successors of `c`: its left, right, lower and upper neighbour, in this order, each one
/// only where it is an `Empty` cell of `cells`, and each at cost 1.
pub open spec fn successor_list(cells: Seq<Seq<CellState>>, c: Coord) -> Seq<(Coord, u32)> {
    candidate(cells, c.x - 1, c.y as int) + candidate(cells, c.x + 1, c.y as int) + candidate(
        cells,
        c.x as int,
        c.y + 1,
    ) + candidate(cells, c.x as int, c.y - 1)
}

/// The Manhattan distance `|a.x - b.x| + |a.y - b.y|`.
pub open spec fn manhattan(a: Coord, b: Coord) -> nat {
    let dx = if a.x >= b.x { a.x - b.x } else { b.x - a.x };
    let dy = if a.y >= b.y { a.y - b.y } else { b.y - a.y };
    (dx + dy) as nat
}

/// Tells whether cell `(x, y)` exists in `field` and holds `Empty`.
fn is_free(field: &Vec<Vec<CellState>>, x: usize, y: usize) -> (res: bool)
    ensures
        res == empty_at(rows(field), x as int, y as int),
{
    y < field.len() && x < field[y].len() && field[y][x] == CellState::Empty
}

impl Coord {
    /// The cells that the search may enter from `self`, each with the cost of the move.
    ///
    /// `self` need not be a cell of `field`; a neighbour that is not one is never listed.
    pub fn successors(&self, field: &Vec<Vec<CellState>>) -> (ret: Vec<(Coord, u32)>)
        ensures
            ret@ == successor_list(rows(field), *self),
    {
        let ghost cells = rows(field);
        proof {
            assert(cells.len() == field.len());
            if self.y < field.len() {
                assert(cells[self.y as int].len() == field@[self.y as int].len());
            }
        }
        let mut ret: Vec<(Coord, u32)> = Vec::new();
        if self.x > 0 && is_free(field, self.x - 1, self.y) {
            ret.push((Coord { x: self.x - 1, y: self.y }, 1));
        }
        let ghost left = ret@;
        assert(left =~= candidate(cells, self.x - 1, self.y as int));
        if self.x < usize::MAX && is_free(field, self.x + 1, self.y) {
            ret.push((Coord { x: self.x + 1, y: self.y }, 1));
        }
        let ghost sides = ret@;
        assert(sides =~= left + candidate(cells, self.x + 1, self.y as int));
        if self.y < usize::MAX && is_free(field, self.x, self.y + 1) {
            ret.push((Coord { x: self.x, y: self.y + 1 }, 1));
        }
        let ghost lower = ret@;
        assert(lower =~= sides + candidate(cells, self.x as int, self.y + 1));
        if self.y > 0 && is_free(field, self.x, self.y - 1) {
            ret.push((Coord { x: self.x, y: self.y - 1 }, 1));
        }
        assert(ret@ =~= lower + candidate(cells, self.x as int, self.y - 1));
        ret
    }

    /// Tells whether `self` is the cell `goal`: the goal test of the search.
    pub fn is_at(&self, goal: Coord) -> (res: bool)
        ensures
            res == (*self == goal),
    {
        self.x == goal.x && self.y == goal.y
    }

    /// The Manhattan distance to `other`: the estimate that guides the search.
    pub fn distance(&self, other: Self) -> (res: u32)
        requires
            manhattan(*self, other) <= u32::MAX,
        ensures
            res == manhattan(*self, other),
    {
        let dx: usize = if self.x >= other.x { self.x - other.x } else { other.x - self.x };
        let dy: usize = if self.y >= other.y { self.y - other.y } else { other.y - self.y };
        (dx + dy) as u32
    }
}

} // verus!
