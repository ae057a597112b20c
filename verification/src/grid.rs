//! The occupancy grid: a fixed rectangle of cells and the position of the agent.

use vstd::prelude::*;
use crate::coord::{rows, CellState, Coord};
use crate::route::{costs_fit, rectangular};

verus! {

/// Why a grid operation was refused.
#[derive(Debug, Clone, Copy, PartialEq, Eq, Structural)]
pub enum GridError {
    /// The coordinate addresses no cell of the grid.
    OutOfBounds,
}

/// An obstacle that an edit can place or take away.
#[derive(Debug, Clone, Copy, PartialEq, Eq, Structural)]
pub enum Marker {
    Tile,
    Enemy,
}

impl Marker {
    /// The state of a cell that holds the marker.
    pub open spec fn state(self) -> CellState {
        match self {
            Marker::Tile => CellState::Tile,
            Marker::Enemy => CellState::Enemy,
        }
    }

    /// The state of a cell that holds the marker.
    pub fn cell_state(self) -> (res: CellState)
        ensures
            res == self.state(),
    {
        match self {
            Marker::Tile => CellState::Tile,
            Marker::Enemy => CellState::Enemy,
        }
    }
}

/// The grid as a mathematical value: `cells[y][x]` is the state of cell `(x, y)`, and `agent`
/// is the cell that the grid records as the agent's.
pub struct GridView {
    pub cells: Seq<Seq<CellState>>,
    pub agent: Coord,
}

impl GridView {
    /// The number of rows.
    pub open spec fn height(self) -> nat {
        self.cells.len()
    }

    /// The number of columns.
    pub open spec fn width(self) -> nat {
        if self.cells.len() > 0 {
            self.cells[0].len()
        } else {
            0
        }
    }

    /// Whether `c` addresses a cell of the grid.
    pub open spec fn contains(self, c: Coord) -> bool {
        c.x < self.width() && c.y < self.height()
    }

    /// The state of cell `c`.
    pub open spec fn at(self, c: Coord) -> CellState
        recommends
            self.contains(c),
    {
        self.cells[c.y as int][c.x as int]
    }

    /// The grid with `state` written into cell `c`, all else as it was.
    pub open spec fn put(self, c: Coord, state: CellState) -> GridView
        recommends
            self.contains(c),
    {
        GridView {
            cells: self.cells.update(c.y as int, self.cells[c.y as int].update(c.x as int, state)),
            agent: self.agent,
        }
    }

    /// The grid with the recorded agent position set to `c`, the cells as they were.
    pub open spec fn with_agent(self, c: Coord) -> GridView {
        GridView { cells: self.cells, agent: c }
    }

    /// The grid after a toggle of `marker` on cell `c`: the marker is taken away where the
    /// cell holds it, and placed over whatever the cell holds where it does not.
    pub open spec fn toggled(self, c: Coord, marker: Marker) -> GridView
        recommends
            self.contains(c),
    {
        if self.at(c) == marker.state() {
            self.put(c, CellState::Empty)
        } else {
            self.put(c, marker.state())
        }
    }

    /// The grid after the agent moved to cell `c`: the cell it was recorded at is `Empty`,
    /// `c` holds `Agent` and is the recorded position.
    pub open spec fn relocated(self, c: Coord) -> GridView
        recommends
            self.contains(c),
    {
        self.put(self.agent, CellState::Empty).put(c, CellState::Agent).with_agent(c)
    }

    /// A grid is a rectangle of at least one row and one column, and the agent's recorded
    /// position is one of its cells.
    pub open spec fn wf(self) -> bool {
        &&& rectangular(self.cells)
        &&& self.contains(self.agent)
    }

    /// Exactly one cell holds `Agent`, and it is the recorded agent position.
    pub open spec fn sole_agent(self) -> bool {
        forall|c: Coord|
            self.contains(c) ==> (#[trigger] self.at(c) == CellState::Agent <==> c == self.agent)
    }
}

/// A row of `width` cells, all `Empty`.
pub open spec fn blank_row(width: nat) -> Seq<CellState> {
    Seq::new(width, |x: int| CellState::Empty)
}

/// `height` rows of `width` cells, all `Empty`.
pub open spec fn blank(width: nat, height: nat) -> Seq<Seq<CellState>> {
    Seq::new(height, |y: int| blank_row(width))
}

/// The grid of `width` columns and `height` rows in which `start` holds the agent and every
/// other cell is `Empty`.
pub open spec fn fresh(width: nat, height: nat, start: Coord) -> GridView {
    GridView { cells: blank(width, height), agent: start }.put(start, CellState::Agent)
}

/// The occupancy grid. Its size is fixed when it is made.
#[derive(Debug)]
pub struct Grid {
    field: Vec<Vec<CellState>>,
    width: usize,
    height: usize,
    player_pos: Coord,
}

impl View for Grid {
    type V = GridView;

    closed spec fn view(&self) -> GridView {
        GridView { cells: rows(&self.field), agent: self.player_pos }
    }
}

/// A row of `width` cells, all `Empty`.
fn empty_row(width: usize) -> (row: Vec<CellState>)
    ensures
        row@ == blank_row(width as nat),
{
    let mut row: Vec<CellState> = Vec::new();
    let mut x: usize = 0;
    while x < width
        invariant
            x <= width,
            row@ == blank_row(x as nat),
        decreases width - x,
    {
        row.push(CellState::Empty);
        x += 1;
        assert(row@ =~= blank_row(x as nat));
    }
    row
}

/// Writes `state` into cell `(x, y)` of `field`.
fn write_cell(field: &mut Vec<Vec<CellState>>, x: usize, y: usize, state: CellState)
    requires
        y < old(field)@.len(),
        x < old(field)@[y as int]@.len(),
    ensures
        rows(final(field)) == rows(old(field)).update(
            y as int,
            rows(old(field))[y as int].update(x as int, state),
        ),
    no_unwind
{
    field[y][x] = state;
    assert(rows(field) =~= rows(old(field)).update(
        y as int,
        rows(old(field))[y as int].update(x as int, state),
    ));
}

impl Grid {
    #[verifier::type_invariant]
    spec fn inv(&self) -> bool {
        &&& self@.wf()
        &&& self@.width() == self.width
        &&& self@.height() == self.height
    }

    /// A grid of `width` columns and `height` rows, every cell `Empty` but `start`, which holds
    /// the agent. Refused where `start` is no cell of such a grid, as with no column or no row.
    pub fn new(width: usize, height: usize, start: Coord) -> (res: Result<Grid, GridError>)
        ensures
            res is Ok <==> start.x < width && start.y < height,
            res matches Ok(grid) ==> grid@ == fresh(width as nat, height as nat, start),
            res matches Ok(grid) ==> grid@.width() == width && grid@.height() == height,
            res matches Ok(grid) ==> grid@.wf() && grid@.sole_agent(),
            res matches Err(e) ==> e == GridError::OutOfBounds,
    {
        if start.x >= width || start.y >= height {
            return Err(GridError::OutOfBounds);
        }
        let mut field: Vec<Vec<CellState>> = Vec::new();
        let mut y: usize = 0;
        while y < height
            invariant
                y <= height,
                field@.len() == y,
                forall|j: int| 0 <= j < y ==> (#[trigger] field@[j])@ == blank_row(width as nat),
            decreases height - y,
        {
            field.push(empty_row(width));
            y += 1;
        }
        assert(rows(&field) =~= blank(width as nat, height as nat));
        write_cell(&mut field, start.x, start.y, CellState::Agent);
        let grid = Grid { field, width, height, player_pos: start };
        Ok(grid)
    }

    /// The number of columns.
    pub fn width(&self) -> (res: usize)
        ensures
            res == self@.width(),
            self@.wf(),
    {
        proof {
            use_type_invariant(self);
        }
        self.width
    }

    /// The number of rows.
    pub fn height(&self) -> (res: usize)
        ensures
            res == self@.height(),
            self@.wf(),
    {
        proof {
            use_type_invariant(self);
        }
        self.height
    }

    /// The recorded position of the agent.
    pub fn agent(&self) -> (res: Coord)
        ensures
            res == self@.agent,
            self@.contains(res),
    {
        proof {
            use_type_invariant(self);
        }
        self.player_pos
    }

    /// The cells, row by row.
    pub(crate) fn field(&self) -> (res: &Vec<Vec<CellState>>)
        ensures
            rows(res) == self@.cells,
            self@.wf(),
    {
        proof {
            use_type_invariant(self);
        }
        &self.field
    }

    /// Tells whether the grid is small enough for a search to count its costs.
    pub fn costs_fit(&self) -> (res: bool)
        ensures
            res == costs_fit(self@.cells),
    {
        proof {
            use_type_invariant(self);
        }
        if self.width > 0xffff_ffff || self.height > 0xffff_ffff {
            assert(self.width * self.height >= self.width && self.width * self.height
                >= self.height) by (nonlinear_arith)
                requires
                    self.width >= 1,
                    self.height >= 1,
            ;
            return false;
        }
        let w = self.width as u64;
        let h = self.height as u64;
        assert(w * h <= 0xffff_ffff * 0xffff_ffff) by (nonlinear_arith)
            requires
                w <= 0xffff_ffff,
                h <= 0xffff_ffff,
        ;
        h * w + h + w <= 0xffff_ffff
    }

    /// Tells whether `coord` addresses a cell of the grid.
    pub fn contains(&self, coord: Coord) -> (res: bool)
        ensures
            res == self@.contains(coord),
    {
        proof {
            use_type_invariant(self);
        }
        coord.x < self.width && coord.y < self.height
    }

    /// The state of cell `coord`.
    pub fn query(&self, coord: Coord) -> (res: Result<CellState, GridError>)
        ensures
            res is Ok <==> self@.contains(coord),
            res matches Ok(state) ==> state == self@.at(coord),
            res matches Err(e) ==> e == GridError::OutOfBounds,
            self@.wf(),
    {
        proof {
            use_type_invariant(self);
        }
        if !self.contains(coord) {
            return Err(GridError::OutOfBounds);
        }
        assert(self@.cells[coord.y as int].len() == self.width);
        Ok(self.field[coord.y][coord.x])
    }

    /// Writes `state` into cell `coord`, whatever the cell held. The recorded position of
    /// the agent stays as it is.
    pub fn set_cell(&mut self, coord: Coord, state: CellState) -> (res: Result<(), GridError>)
        ensures
            res is Ok <==> old(self)@.contains(coord),
            res is Ok ==> final(self)@ == old(self)@.put(coord, state),
            res matches Err(e) ==> e == GridError::OutOfBounds && final(self)@ == old(self)@,
            final(self)@.wf(),
            res is Ok && old(self)@.sole_agent() && (state == CellState::Agent <==> coord
                == old(self)@.agent) ==> final(self)@.sole_agent(),
    {
        proof {
            use_type_invariant(&*self);
        }
        if !self.contains(coord) {
            return Err(GridError::OutOfBounds);
        }
        assert(self@.cells[coord.y as int].len() == self.width);
        write_cell(&mut self.field, coord.x, coord.y, state);
        proof {
            lemma_put_keeps_shape(old(self)@, coord, state);
            if old(self)@.sole_agent() && (state == CellState::Agent <==> coord == old(self)@.agent) {
                lemma_put_keeps_sole_agent(old(self)@, coord, state);
            }
        }
        Ok(())
    }

    /// Takes the marker away from cell `coord` where the cell holds it, and places it there
    /// otherwise, over whatever the cell held: the agent's cell is no exception.
    pub fn toggle_marker(&mut self, coord: Coord, marker: Marker) -> (res: Result<(), GridError>)
        ensures
            res is Ok <==> old(self)@.contains(coord),
            res is Ok ==> final(self)@ == old(self)@.toggled(coord, marker),
            res matches Err(e) ==> e == GridError::OutOfBounds && final(self)@ == old(self)@,
            final(self)@.wf(),
            res is Ok && old(self)@.sole_agent() && coord != old(self)@.agent
                ==> final(self)@.sole_agent(),
    {
        let held = match self.query(coord) {
            Ok(held) => held,
            Err(e) => {
                proof {
                    use_type_invariant(&*self);
                }
                return Err(e);
            },
        };
        let state = marker.cell_state();
        if held != state {
            self.set_cell(coord, state)
        } else {
            self.set_cell(coord, CellState::Empty)
        }
    }

    /// Moves the agent to cell `coord`: the cell it is recorded at becomes `Empty`, `coord`
    /// becomes `Agent` whatever it held, and `coord` is the recorded position from now on.
    pub fn relocate_agent(&mut self, coord: Coord) -> (res: Result<(), GridError>)
        ensures
            res is Ok <==> old(self)@.contains(coord),
            res is Ok ==> final(self)@ == old(self)@.relocated(coord),
            res matches Err(e) ==> e == GridError::OutOfBounds && final(self)@ == old(self)@,
            final(self)@.wf(),
            res is Ok && old(self)@.sole_agent() ==> final(self)@.sole_agent(),
    {
        proof {
            use_type_invariant(&*self);
        }
        if !self.contains(coord) {
            return Err(GridError::OutOfBounds);
        }
        let from = self.player_pos;
        let ghost start = self@;
        assert(self@.cells[from.y as int].len() == self.width);
        write_cell(&mut self.field, from.x, from.y, CellState::Empty);
        proof {
            lemma_put_keeps_shape(start, from, CellState::Empty);
        }
        let ghost cleared = self@;
        assert(self@.cells[coord.y as int].len() == self.width);
        write_cell(&mut self.field, coord.x, coord.y, CellState::Agent);
        proof {
            lemma_put_keeps_shape(cleared, coord, CellState::Agent);
        }
        self.player_pos = coord;
        proof {
            if start.sole_agent() {
                lemma_relocation_keeps_sole_agent(start, coord);
            }
        }
        Ok(())
    }
}

impl Default for Grid {
    /// The grid of 19 columns and 13 rows with the agent in the corner `(0, 0)`.
    fn default() -> (grid: Grid)
        ensures
            grid@ == fresh(19, 13, Coord { x: 0, y: 0 }),
            grid@.width() == 19 && grid@.height() == 13,
            grid@.wf(),
            grid@.sole_agent(),
    {
        match Grid::new(19, 13, Coord { x: 0, y: 0 }) {
            Ok(grid) => grid,
            Err(_) => unreached(),
        }
    }
}

/// Writing into a cell of a well-formed grid keeps its size, and changes that cell alone.
pub proof fn lemma_put_keeps_shape(g: GridView, c: Coord, state: CellState)
    requires
        g.wf(),
        g.contains(c),
    ensures
        g.put(c, state).wf(),
        g.put(c, state).width() == g.width(),
        g.put(c, state).height() == g.height(),
        g.put(c, state).at(c) == state,
        forall|d: Coord|
            g.contains(d) && d != c ==> #[trigger] g.put(c, state).at(d) == g.at(d),
        forall|d: Coord| #[trigger] g.put(c, state).contains(d) <==> g.contains(d),
{
    let after = g.put(c, state);
    assert(g.cells[c.y as int].len() == g.cells[0].len());
    assert forall|y: int| 0 <= y < after.cells.len() implies (#[trigger] after.cells[y]).len()
        == after.cells[0].len() by {
        assert(g.cells[y].len() == g.cells[0].len());
    }
    assert forall|d: Coord| g.contains(d) && d != c implies #[trigger] after.at(d) == g.at(d) by {
        assert(g.cells[d.y as int].len() == g.cells[0].len());
    }
}

/// A write that puts `Agent` into the agent's cell, or anything else into another cell,
/// leaves the agent's cell the only one that holds `Agent`.
pub proof fn lemma_put_keeps_sole_agent(g: GridView, c: Coord, state: CellState)
    requires
        g.wf(),
        g.contains(c),
        g.sole_agent(),
        state == CellState::Agent <==> c == g.agent,
    ensures
        g.put(c, state).sole_agent(),
{
    let after = g.put(c, state);
    lemma_put_keeps_shape(g, c, state);
    assert forall|d: Coord| after.contains(d) implies (#[trigger] after.at(d) == CellState::Agent
        <==> d == after.agent) by {
        if d != c {
            assert(after.at(d) == g.at(d));
        }
    }
}

/// Moving the agent leaves exactly one cell with `Agent`: the one it moved to.
pub proof fn lemma_relocation_keeps_sole_agent(g: GridView, to: Coord)
    requires
        g.wf(),
        g.contains(to),
        g.sole_agent(),
    ensures
        g.relocated(to).sole_agent(),
{
    let cleared = g.put(g.agent, CellState::Empty);
    let after = cleared.put(to, CellState::Agent).with_agent(to);
    lemma_put_keeps_shape(g, g.agent, CellState::Empty);
    lemma_put_keeps_shape(cleared, to, CellState::Agent);
    assert forall|d: Coord| after.contains(d) implies (#[trigger] after.at(d) == CellState::Agent
        <==> d == after.agent) by {
        assert(cleared.contains(d));
        assert(g.contains(d));
        if d != to {
            assert(after.at(d) == cleared.put(to, CellState::Agent).at(d));
            assert(cleared.put(to, CellState::Agent).at(d) == cleared.at(d));
            if d != g.agent {
                assert(cleared.at(d) == g.at(d));
            }
        }
    }
}

} // verus!
