use grid_route::command::{subcmd_to_str, Command, Direction, Subcommand};
use grid_route::coord::{CellState, Coord};
use grid_route::finder::find_path;
use grid_route::grid::{Grid, Marker};
use grid_route::planner::{plan_request, plan_with_nonce};

fn at(x: usize, y: usize) -> Coord {
    Coord { x, y }
}

#[test]
fn open_three_by_three_corner_to_corner() {
    let grid = Grid::new(3, 3, at(0, 0)).unwrap();
    assert!(grid.costs_fit());
    let path = find_path(&grid, grid.agent(), at(2, 2)).unwrap();
    assert_eq!(path, vec![at(0, 0), at(1, 0), at(2, 0), at(2, 1), at(2, 2)]);
    let cmd = Command::with_nonce(&path, 7);
    assert_eq!(cmd.res, "!r2d2a9a9a9a9a97");
    let drawn = Command::new(path);
    let nonce = drawn.res.strip_prefix("!r2d2a9a9a9a9a9").unwrap();
    assert!(!nonce.is_empty() && nonce.len() <= 10);
    assert!(nonce.chars().all(|c| c.is_ascii_digit()));
    assert_eq!(nonce.parse::<u32>().unwrap().to_string(), nonce);
}

#[test]
fn tile_on_the_target_gives_no_path() {
    let mut grid = Grid::new(3, 3, at(0, 0)).unwrap();
    grid.toggle_marker(at(2, 2), Marker::Tile).unwrap();
    assert_eq!(grid.query(at(2, 2)), Ok(CellState::Tile));
    assert_eq!(find_path(&grid, grid.agent(), at(2, 2)), None);
    assert!(plan_with_nonce(&grid, at(2, 2), 1).is_none());
    assert!(plan_request(&grid, at(2, 2)).is_none());
}

#[test]
fn nine_steps_right_end_in_a_zero_token() {
    let run = Subcommand { dir: Some(Direction::Right), count: 9 };
    assert_eq!(subcmd_to_str(run), "r9r0");
    let path: Vec<Coord> = (0..10).map(|x| at(x, 0)).collect();
    assert_eq!(Command::with_nonce(&path, 123).res, "!r9r0a9a9a9a9a9123");
    let grid = Grid::new(10, 1, at(0, 0)).unwrap();
    let plan = plan_with_nonce(&grid, at(9, 0), 5).unwrap();
    assert_eq!(plan.path, path);
    assert_eq!(plan.command.res, "!r9r0a9a9a9a9a95");
}

#[test]
fn start_on_an_empty_target_is_a_path_of_one() {
    let mut grid = Grid::new(3, 3, at(1, 1)).unwrap();
    grid.toggle_marker(at(1, 1), Marker::Tile).unwrap();
    grid.toggle_marker(at(1, 1), Marker::Tile).unwrap();
    assert_eq!(grid.query(at(1, 1)), Ok(CellState::Empty));
    assert_eq!(grid.agent(), at(1, 1));
    let path = find_path(&grid, grid.agent(), at(1, 1)).unwrap();
    assert_eq!(path, vec![at(1, 1)]);
    assert_eq!(Command::with_nonce(&path, 42).res, "!a9a9a9a9a942");
    let plan = plan_with_nonce(&grid, at(1, 1), 0).unwrap();
    assert_eq!(plan.path, vec![at(1, 1)]);
    assert_eq!(plan.command.res, "!a9a9a9a9a90");
}

#[test]
fn start_on_its_own_agent_cell_is_no_path() {
    let grid = Grid::new(3, 3, at(1, 1)).unwrap();
    assert_eq!(grid.query(at(1, 1)), Ok(CellState::Agent));
    assert_eq!(find_path(&grid, at(1, 1), at(1, 1)), None);
}
