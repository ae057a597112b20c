use grid_route::coord::{CellState, Coord};
use grid_route::grid::{Grid, GridError, Marker};
use grid_route::planner::{apply_edit, Edit};

fn cell(x: usize, y: usize) -> Coord {
    Coord { x, y }
}

fn count_of(grid: &Grid, state: CellState) -> usize {
    let mut n = 0;
    for y in 0..grid.height() {
        for x in 0..grid.width() {
            if grid.query(cell(x, y)) == Ok(state) {
                n += 1;
            }
        }
    }
    n
}

#[test]
fn new_grid_is_empty_but_for_the_agent() {
    let grid = Grid::new(4, 3, cell(2, 1)).unwrap();
    assert_eq!(grid.width(), 4);
    assert_eq!(grid.height(), 3);
    assert_eq!(grid.agent(), cell(2, 1));
    for y in 0..3 {
        for x in 0..4 {
            let expected = if (x, y) == (2, 1) { CellState::Agent } else { CellState::Empty };
            assert_eq!(grid.query(cell(x, y)), Ok(expected));
        }
    }
    assert!(grid.costs_fit());
}

#[test]
fn new_grid_refuses_a_start_outside() {
    assert_eq!(Grid::new(3, 3, cell(3, 0)).err(), Some(GridError::OutOfBounds));
    assert_eq!(Grid::new(3, 3, cell(0, 3)).err(), Some(GridError::OutOfBounds));
    assert_eq!(Grid::new(0, 3, cell(0, 0)).err(), Some(GridError::OutOfBounds));
    assert_eq!(Grid::new(3, 0, cell(0, 0)).err(), Some(GridError::OutOfBounds));
    assert!(Grid::new(1, 1, cell(0, 0)).is_ok());
}

#[test]
fn default_grid_is_nineteen_by_thirteen() {
    let grid = Grid::default();
    assert_eq!(grid.width(), 19);
    assert_eq!(grid.height(), 13);
    assert_eq!(grid.agent(), cell(0, 0));
    assert_eq!(grid.query(cell(0, 0)), Ok(CellState::Agent));
    assert_eq!(grid.query(cell(18, 12)), Ok(CellState::Empty));
    assert_eq!(grid.query(cell(19, 12)), Err(GridError::OutOfBounds));
    assert_eq!(grid.query(cell(18, 13)), Err(GridError::OutOfBounds));
    assert_eq!(count_of(&grid, CellState::Agent), 1);
    assert_eq!(count_of(&grid, CellState::Empty), 19 * 13 - 1);
}

#[test]
fn contains_follows_the_bounds() {
    let grid = Grid::new(2, 5, cell(0, 0)).unwrap();
    assert!(grid.contains(cell(1, 4)));
    assert!(!grid.contains(cell(2, 4)));
    assert!(!grid.contains(cell(1, 5)));
    assert!(!grid.contains(cell(usize::MAX, usize::MAX)));
}

#[test]
fn set_cell_writes_one_cell() {
    let mut grid = Grid::new(3, 2, cell(0, 0)).unwrap();
    assert_eq!(grid.set_cell(cell(2, 1), CellState::Enemy), Ok(()));
    assert_eq!(grid.query(cell(2, 1)), Ok(CellState::Enemy));
    assert_eq!(grid.query(cell(1, 1)), Ok(CellState::Empty));
    assert_eq!(grid.query(cell(2, 0)), Ok(CellState::Empty));
    assert_eq!(grid.agent(), cell(0, 0));
    assert_eq!(grid.set_cell(cell(2, 1), CellState::Tile), Ok(()));
    assert_eq!(grid.query(cell(2, 1)), Ok(CellState::Tile));
    assert_eq!(count_of(&grid, CellState::Empty), 4);
}

#[test]
fn set_cell_outside_changes_nothing() {
    let mut grid = Grid::new(3, 2, cell(0, 0)).unwrap();
    assert_eq!(grid.set_cell(cell(3, 0), CellState::Tile), Err(GridError::OutOfBounds));
    assert_eq!(grid.set_cell(cell(0, 2), CellState::Tile), Err(GridError::OutOfBounds));
    assert_eq!(count_of(&grid, CellState::Empty), 5);
    assert_eq!(count_of(&grid, CellState::Agent), 1);
}

#[test]
fn toggle_places_and_takes_away() {
    let mut grid = Grid::new(3, 3, cell(0, 0)).unwrap();
    assert_eq!(grid.toggle_marker(cell(1, 1), Marker::Tile), Ok(()));
    assert_eq!(grid.query(cell(1, 1)), Ok(CellState::Tile));
    assert_eq!(grid.toggle_marker(cell(1, 1), Marker::Tile), Ok(()));
    assert_eq!(grid.query(cell(1, 1)), Ok(CellState::Empty));
    assert_eq!(grid.toggle_marker(cell(1, 1), Marker::Enemy), Ok(()));
    assert_eq!(grid.query(cell(1, 1)), Ok(CellState::Enemy));
    assert_eq!(grid.toggle_marker(cell(1, 1), Marker::Tile), Ok(()));
    assert_eq!(grid.query(cell(1, 1)), Ok(CellState::Tile));
    assert_eq!(grid.toggle_marker(cell(1, 1), Marker::Enemy), Ok(()));
    assert_eq!(grid.query(cell(1, 1)), Ok(CellState::Enemy));
    assert_eq!(grid.toggle_marker(cell(1, 1), Marker::Enemy), Ok(()));
    assert_eq!(grid.query(cell(1, 1)), Ok(CellState::Empty));
    assert_eq!(grid.toggle_marker(cell(3, 3), Marker::Tile), Err(GridError::OutOfBounds));
}

#[test]
fn toggle_overwrites_the_agent_cell() {
    let mut grid = Grid::new(3, 3, cell(1, 1)).unwrap();
    assert_eq!(grid.toggle_marker(cell(1, 1), Marker::Tile), Ok(()));
    assert_eq!(grid.query(cell(1, 1)), Ok(CellState::Tile));
    assert_eq!(grid.agent(), cell(1, 1));
    assert_eq!(count_of(&grid, CellState::Agent), 0);
}

#[test]
fn relocation_moves_the_agent() {
    let mut grid = Grid::new(3, 3, cell(0, 0)).unwrap();
    assert_eq!(grid.relocate_agent(cell(2, 1)), Ok(()));
    assert_eq!(grid.agent(), cell(2, 1));
    assert_eq!(grid.query(cell(0, 0)), Ok(CellState::Empty));
    assert_eq!(grid.query(cell(2, 1)), Ok(CellState::Agent));
    assert_eq!(count_of(&grid, CellState::Agent), 1);
    assert_eq!(grid.relocate_agent(cell(2, 1)), Ok(()));
    assert_eq!(grid.agent(), cell(2, 1));
    assert_eq!(grid.query(cell(2, 1)), Ok(CellState::Agent));
    assert_eq!(count_of(&grid, CellState::Agent), 1);
}

#[test]
fn relocation_overwrites_an_obstacle() {
    let mut grid = Grid::new(3, 3, cell(0, 0)).unwrap();
    grid.toggle_marker(cell(1, 0), Marker::Enemy).unwrap();
    assert_eq!(grid.relocate_agent(cell(1, 0)), Ok(()));
    assert_eq!(grid.query(cell(1, 0)), Ok(CellState::Agent));
    assert_eq!(grid.query(cell(0, 0)), Ok(CellState::Empty));
    assert_eq!(count_of(&grid, CellState::Enemy), 0);
}

#[test]
fn relocation_outside_changes_nothing() {
    let mut grid = Grid::new(3, 3, cell(0, 0)).unwrap();
    assert_eq!(grid.relocate_agent(cell(0, 3)), Err(GridError::OutOfBounds));
    assert_eq!(grid.agent(), cell(0, 0));
    assert_eq!(grid.query(cell(0, 0)), Ok(CellState::Agent));
}

#[test]
fn marker_states() {
    assert_eq!(Marker::Tile.cell_state(), CellState::Tile);
    assert_eq!(Marker::Enemy.cell_state(), CellState::Enemy);
}

#[test]
fn edits_toggle_and_relocate() {
    let mut grid = Grid::new(3, 3, cell(0, 0)).unwrap();
    assert_eq!(apply_edit(&mut grid, cell(1, 1), Edit::Toggle(Marker::Tile)), Ok(()));
    assert_eq!(grid.query(cell(1, 1)), Ok(CellState::Tile));
    assert_eq!(apply_edit(&mut grid, cell(1, 1), Edit::Toggle(Marker::Tile)), Ok(()));
    assert_eq!(grid.query(cell(1, 1)), Ok(CellState::Empty));
    assert_eq!(apply_edit(&mut grid, cell(2, 2), Edit::Relocate), Ok(()));
    assert_eq!(grid.agent(), cell(2, 2));
    assert_eq!(grid.query(cell(0, 0)), Ok(CellState::Empty));
    assert_eq!(grid.query(cell(2, 2)), Ok(CellState::Agent));
    assert_eq!(apply_edit(&mut grid, cell(3, 2), Edit::Relocate), Err(GridError::OutOfBounds));
    assert_eq!(
        apply_edit(&mut grid, cell(2, 3), Edit::Toggle(Marker::Enemy)),
        Err(GridError::OutOfBounds)
    );
    assert_eq!(grid.agent(), cell(2, 2));
}

#[test]
fn relocate_edit_leaves_a_cell_with_an_agent_alone() {
    let mut grid = Grid::new(3, 3, cell(0, 0)).unwrap();
    grid.set_cell(cell(2, 2), CellState::Agent).unwrap();
    assert_eq!(apply_edit(&mut grid, cell(2, 2), Edit::Relocate), Ok(()));
    assert_eq!(grid.agent(), cell(0, 0));
    assert_eq!(grid.query(cell(0, 0)), Ok(CellState::Agent));
    assert_eq!(grid.query(cell(2, 2)), Ok(CellState::Agent));
}
