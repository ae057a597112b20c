use grid_route::command::{subcmd_to_str, Command, Direction, Subcommand};
use grid_route::coord::Coord;
use grid_route::digits::{append_decimal, decimal_string, digit_str};
use grid_route::grid::Grid;
use grid_route::planner::plan_request;

fn c(x: usize, y: usize) -> Coord {
    Coord { x, y }
}

fn run(dir: Direction, count: usize) -> Subcommand {
    Subcommand { dir: Some(dir), count }
}

/// Reads run tokens back: nine steps for every full chunk, then the remainder digit.
fn decode_runs(text: &str) -> Vec<(char, usize)> {
    let chars: Vec<char> = text.chars().collect();
    assert_eq!(chars.len() % 2, 0);
    let mut runs = Vec::new();
    let mut pending = 0usize;
    for token in chars.chunks(2) {
        assert!(matches!(token[0], 'l' | 'r' | 'u' | 'd'));
        let digit = token[1].to_digit(10).unwrap() as usize;
        if digit == 9 {
            pending += 9;
        } else {
            runs.push((token[0], pending + digit));
            pending = 0;
        }
    }
    assert_eq!(pending, 0);
    runs
}

/// Splits a command behind its trailer: the stem, and the digits of the nonce.
fn stem_of(command: &str) -> (String, String) {
    let cut = command.find("a9a9a9a9a9").unwrap() + 10;
    (command[..cut].to_string(), command[cut..].to_string())
}

#[test]
fn direction_letters() {
    assert_eq!(Direction::Left.letter(), "l");
    assert_eq!(Direction::Right.letter(), "r");
    assert_eq!(Direction::Up.letter(), "u");
    assert_eq!(Direction::Down.letter(), "d");
}

#[test]
fn digits_and_decimal_text() {
    let all: Vec<&str> = (0..10).map(digit_str).collect();
    assert_eq!(all, vec!["0", "1", "2", "3", "4", "5", "6", "7", "8", "9"]);
    assert_eq!(decimal_string(0), "0");
    assert_eq!(decimal_string(7), "7");
    assert_eq!(decimal_string(10), "10");
    assert_eq!(decimal_string(909), "909");
    assert_eq!(decimal_string(1_000_000), "1000000");
    assert_eq!(decimal_string(u32::MAX), "4294967295");
    let mut text = String::from("n=");
    append_decimal(&mut text, 2026);
    assert_eq!(text, "n=2026");
    for n in [1u32, 99, 100, 65_535, 123_456_789, 4_000_000_000] {
        assert_eq!(decimal_string(n), n.to_string());
    }
}

#[test]
fn run_tokens_by_length() {
    assert_eq!(subcmd_to_str(run(Direction::Right, 1)), "r1");
    assert_eq!(subcmd_to_str(run(Direction::Left, 8)), "l8");
    assert_eq!(subcmd_to_str(run(Direction::Up, 9)), "u9u0");
    assert_eq!(subcmd_to_str(run(Direction::Down, 10)), "d9d1");
    assert_eq!(subcmd_to_str(run(Direction::Left, 17)), "l9l8");
    assert_eq!(subcmd_to_str(run(Direction::Right, 18)), "r9r9r0");
    assert_eq!(subcmd_to_str(run(Direction::Up, 30)), "u9u9u9u3");
}

#[test]
fn run_without_steps_or_direction_has_no_tokens() {
    assert_eq!(subcmd_to_str(run(Direction::Right, 0)), "");
    assert_eq!(subcmd_to_str(Subcommand { dir: None, count: 0 }), "");
    assert_eq!(subcmd_to_str(Subcommand { dir: None, count: 5 }), "");
}

#[test]
fn run_tokens_read_back_as_the_run() {
    for dir in [Direction::Left, Direction::Right, Direction::Up, Direction::Down] {
        for count in 1..=100 {
            let text = subcmd_to_str(run(dir, count));
            let letter = dir.letter().chars().next().unwrap();
            assert_eq!(decode_runs(&text), vec![(letter, count)]);
            assert_eq!(text.len(), 2 * (count / 9 + 1));
        }
    }
}

#[test]
fn command_of_a_winding_path() {
    let path = vec![
        c(2, 2),
        c(3, 2),
        c(4, 2),
        c(4, 1),
        c(4, 0),
        c(3, 0),
        c(3, 1),
        c(2, 1),
        c(1, 1),
        c(0, 1),
        c(0, 2),
    ];
    let command = Command::with_nonce(&path, 4_294_967_295);
    assert_eq!(command.res, "!r2u2l1d1l3d1a9a9a9a9a94294967295");
    let (stem, nonce) = stem_of(&command.res);
    assert_eq!(nonce, "4294967295");
    let tokens = stem.strip_prefix('!').unwrap().strip_suffix("a9a9a9a9a9").unwrap();
    assert_eq!(
        decode_runs(tokens),
        vec![('r', 2), ('u', 2), ('l', 1), ('d', 1), ('l', 3), ('d', 1)]
    );
}

#[test]
fn long_runs_read_back_from_the_command() {
    let mut path: Vec<Coord> = (0..=27).map(|x| c(x, 0)).collect();
    path.extend((1..=9).map(|y| c(27, y)));
    path.extend((0..27).rev().map(|x| c(x, 9)));
    path.extend((5..9).rev().map(|y| c(0, y)));
    let command = Command::with_nonce(&path, 0);
    assert_eq!(command.res, "!r9r9r9r0d9d0l9l9l9l0u4a9a9a9a9a90");
    let tokens = command.res.strip_prefix('!').unwrap().strip_suffix("a9a9a9a9a90").unwrap();
    assert_eq!(decode_runs(tokens), vec![('r', 27), ('d', 9), ('l', 27), ('u', 4)]);
}

#[test]
fn command_of_a_single_cell() {
    assert_eq!(Command::with_nonce(&vec![c(5, 5)], 31).res, "!a9a9a9a9a931");
}

#[test]
fn zero_nonce_is_one_digit() {
    assert_eq!(Command::with_nonce(&vec![c(0, 0), c(0, 1)], 0).res, "!d1a9a9a9a9a90");
}

#[test]
fn pairs_that_are_no_neighbours() {
    assert_eq!(Command::with_nonce(&vec![c(0, 0), c(1, 1)], 1).res, "!r1d1a9a9a9a9a91");
    assert_eq!(Command::with_nonce(&vec![c(3, 3), c(2, 2)], 1).res, "!l1u1a9a9a9a9a91");
    assert_eq!(Command::with_nonce(&vec![c(0, 0), c(5, 0)], 1).res, "!r1a9a9a9a9a91");
    assert_eq!(Command::with_nonce(&vec![c(0, 0), c(0, 0), c(1, 0)], 1).res, "!r1a9a9a9a9a91");
    assert_eq!(
        Command::with_nonce(&vec![c(0, 0), c(1, 1), c(1, 2), c(2, 3)], 1).res,
        "!r1d2r1d1a9a9a9a9a91"
    );
}

#[test]
fn drawn_commands_differ_in_the_nonce_only() {
    let path = vec![c(0, 0), c(1, 0), c(1, 1), c(1, 2), c(0, 2)];
    let expected = "!r1d2l1a9a9a9a9a9";
    let mut nonces = Vec::new();
    for _ in 0..8 {
        let command = Command::new(path.clone());
        let digits = command.res.strip_prefix(expected).unwrap().to_string();
        assert!(!digits.is_empty() && digits.len() <= 10);
        assert!(digits.chars().all(|ch| ch.is_ascii_digit()));
        assert_eq!(digits.parse::<u32>().unwrap().to_string(), digits);
        nonces.push(digits);
    }
    nonces.sort();
    nonces.dedup();
    assert!(nonces.len() > 1);
}

#[test]
fn given_nonce_fixes_the_whole_command() {
    let path = vec![c(0, 0), c(1, 0)];
    assert_eq!(Command::with_nonce(&path, 77), Command::with_nonce(&path, 77));
    assert_ne!(Command::with_nonce(&path, 77), Command::with_nonce(&path, 78));
    let (a, _) = stem_of(&Command::with_nonce(&path, 77).res);
    let (b, _) = stem_of(&Command::with_nonce(&path, 123_456).res);
    assert_eq!(a, b);
    assert_eq!(a, "!r1a9a9a9a9a9");
}

#[test]
fn planned_request_words_the_found_path() {
    let grid = Grid::new(4, 4, c(0, 3)).unwrap();
    let plan = plan_request(&grid, c(3, 3)).unwrap();
    assert_eq!(plan.path, vec![c(0, 3), c(1, 3), c(2, 3), c(3, 3)]);
    let digits = plan.command.res.strip_prefix("!r3a9a9a9a9a9").unwrap();
    assert_eq!(digits.parse::<u32>().unwrap().to_string(), digits);
}
