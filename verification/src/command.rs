//! The movement-command wire format: direction runs, their tokens and the command text.

use vstd::prelude::*;
use vstd::string::StringExecFns;
use crate::coord::Coord;
use crate::digits::{append_decimal, decimal_text, digit_char, digit_str};

verus! {

/// One unit step on the lattice.
#[derive(Clone, Copy, PartialEq, Eq, Debug, Structural)]
pub enum Direction {
    Left,
    Right,
    Up,
    Down,
}

/// A run of steps in one direction, as the encoder holds it while it walks a path: no
/// direction before the first step.
#[derive(Clone, Copy, PartialEq, Eq, Debug)]
pub struct Subcommand {
    pub dir: Option<Direction>,
    pub count: usize,
}

/// A finished command.
#[derive(PartialEq, Eq, Debug)]
pub struct Command {
    pub res: String,
}

/// A closed run: its direction and how many steps it holds.
pub type Run = (Direction, nat);

impl Direction {
    /// The character that stands for the direction on the wire.
    pub open spec fn token(self) -> char {
        match self {
            Direction::Left => 'l',
            Direction::Right => 'r',
            Direction::Up => 'u',
            Direction::Down => 'd',
        }
    }

    /// The wire character of the direction, as a one-character text.
    pub fn letter(self) -> (res: &'static str)
        ensures
            res@ == seq![self.token()],
    {
        proof {
            reveal_strlit("l");
            reveal_strlit("r");
            reveal_strlit("u");
            reveal_strlit("d");
        }
        let res = match self {
            Direction::Left => "l",
            Direction::Right => "r",
            Direction::Up => "u",
            Direction::Down => "d",
        };
        assert(res@ =~= seq![self.token()]);
        res
    }
}

/// The steps that lead from `a` to `b`: one along x where the columns differ, then one along y
/// where the rows differ. Between two neighbours of the lattice this is a single step.
pub open spec fn step_dirs(a: Coord, b: Coord) -> Seq<Direction> {
    let along_x = if b.x > a.x {
        seq![Direction::Right]
    } else if b.x < a.x {
        seq![Direction::Left]
    } else {
        Seq::empty()
    };
    let along_y = if b.y > a.y {
        seq![Direction::Down]
    } else if b.y < a.y {
        seq![Direction::Up]
    } else {
        Seq::empty()
    };
    along_x + along_y
}

/// The steps along `path`, pair by pair.
pub open spec fn moves(path: Seq<Coord>) -> Seq<Direction>
    decreases path.len(),
{
    if path.len() <= 1 {
        Seq::empty()
    } else {
        moves(path.drop_last()) + step_dirs(path[path.len() - 2], path[path.len() - 1])
    }
}

/// The steps grouped into runs: a step in the direction of the last run lengthens it, any
/// other step opens a new run of length one.
pub open spec fn runs(steps: Seq<Direction>) -> Seq<Run>
    decreases steps.len(),
{
    if steps.len() == 0 {
        Seq::empty()
    } else {
        let before = runs(steps.drop_last());
        let d = steps.last();
        if before.len() > 0 && before.last().0 == d {
            before.drop_last().push((d, before.last().1 + 1))
        } else {
            before.push((d, 1nat))
        }
    }
}

/// `k` full chunks of direction `dir`: the pair of its token and `'9'`, `k` times.
pub open spec fn chunks_text(dir: Direction, k: nat) -> Seq<char>
    decreases k,
{
    if k == 0 {
        Seq::empty()
    } else {
        chunks_text(dir, (k - 1) as nat) + seq![dir.token(), '9']
    }
}

/// The tokens of a run of `count` steps: one full chunk for every nine steps, then always a
/// last token with the remainder `count % 9`, which is `0` for a multiple of nine. A run
/// without steps has no tokens.
pub open spec fn run_text(dir: Direction, count: nat) -> Seq<char> {
    if count == 0 {
        Seq::empty()
    } else {
        chunks_text(dir, count / 9) + seq![dir.token(), digit_char(count % 9)]
    }
}

/// The tokens of a sequence of runs, in order.
pub open spec fn runs_text(rs: Seq<Run>) -> Seq<char>
    decreases rs.len(),
{
    if rs.len() == 0 {
        Seq::empty()
    } else {
        runs_text(rs.drop_last()) + run_text(rs.last().0, rs.last().1)
    }
}

/// The tokens of the run that `cmd` holds; nothing where it has no direction yet.
pub open spec fn subcommand_text(cmd: Subcommand) -> Seq<char> {
    match cmd.dir {
        None => Seq::empty(),
        Some(d) => run_text(d, cmd.count as nat),
    }
}

/// The trailer that closes the run tokens of every command: `a9a9a9a9a9`.
pub open spec fn trailer() -> Seq<char> {
    seq!['a', '9', 'a', '9', 'a', '9', 'a', '9', 'a', '9']
}

/// All of a command but its nonce: `!`, the run tokens of `path`, the trailer.
pub open spec fn command_stem(path: Seq<Coord>) -> Seq<char> {
    seq!['!'] + runs_text(runs(moves(path))) + trailer()
}

/// The command for `path` with the nonce `nonce`: the stem, then the nonce in decimal.
pub open spec fn command_text(path: Seq<Coord>, nonce: u32) -> Seq<char> {
    command_stem(path) + decimal_text(nonce as nat)
}

/// The tokens of one run.
pub fn subcmd_to_str(cmd: Subcommand) -> (ret: String)
    ensures
        ret@ == subcommand_text(cmd),
{
    let mut ret = String::new();
    let dir = match cmd.dir {
        Some(dir) => dir,
        None => {
            return ret;
        },
    };
    if cmd.count == 0 {
        return ret;
    }
    let full: usize = cmd.count / 9;
    let mut k: usize = 0;
    while k < full
        invariant
            k <= full,
            ret@ == chunks_text(dir, k as nat),
        decreases full - k,
    {
        ret.append(dir.letter());
        ret.append("9");
        proof {
            reveal_strlit("9");
            assert(ret@ =~= chunks_text(dir, k as nat) + seq![dir.token(), '9']);
        }
        k += 1;
    }
    ret.append(dir.letter());
    ret.append(digit_str((cmd.count % 9) as u32));
    assert(ret@ =~= subcommand_text(cmd));
    ret
}

/// How the encoder's state stands for the steps `seen` so far: `sub` is the last run of
/// `seen`, and `out` holds `!` and the tokens of the runs before it.
spec fn encoding(out: Seq<char>, sub: Subcommand, seen: Seq<Direction>) -> bool {
    match sub.dir {
        None => seen.len() == 0 && out == seq!['!'],
        Some(d) => {
            let rs = runs(seen);
            &&& rs.len() > 0
            &&& rs.last() == (d, sub.count as nat)
            &&& out == seq!['!'] + runs_text(rs.drop_last())
        },
    }
}

/// Takes one more step in direction `d`: lengthens the run in `sub`, or writes it to `out`
/// and opens a new one.
fn extend_run(
    out: &mut String,
    sub: &mut Subcommand,
    d: Direction,
    Ghost(seen): Ghost<Seq<Direction>>,
)
    requires
        encoding(old(out)@, *old(sub), seen),
        old(sub).count < usize::MAX,
    ensures
        encoding(final(out)@, *final(sub), seen.push(d)),
        final(sub).dir == Some(d),
        final(sub).count == (if old(sub).dir == Some(d) {
            old(sub).count + 1
        } else {
            1
        }),
{
    let same = match sub.dir {
        Some(cur) => cur == d,
        None => false,
    };
    proof {
        assert(seen.push(d).drop_last() =~= seen);
    }
    if same {
        sub.count += 1;
        proof {
            let rs = runs(seen);
            let next = runs(seen.push(d));
            assert(next == rs.drop_last().push((d, rs.last().1 + 1)));
            assert(next.drop_last() =~= rs.drop_last());
        }
    } else {
        let text = subcmd_to_str(*sub);
        out.append(text.as_str());
        sub.dir = Some(d);
        sub.count = 1;
        proof {
            let rs = runs(seen);
            let next = runs(seen.push(d));
            assert(next == rs.push((d, 1nat)));
            assert(next.drop_last() =~= rs);
            assert(out@ =~= seq!['!'] + runs_text(rs));
        }
    }
}

/// Draws a nonce with `rand::random::<u32>`, which takes it from the generator of the current
/// thread. Every value of the type may come back, so nothing is claimed of it.
#[verifier::external_body]
pub(crate) fn draw_nonce() -> (nonce: u32) {
    rand::random()
}

impl Command {
    /// The command for the path `v`, closed by a freshly drawn nonce.
    pub fn new(v: Vec<Coord>) -> (ret: Command)
        requires
            v@.len() >= 1,
        ensures
            exists|nonce: u32| ret.res@ == command_text(v@, nonce),
    {
        let nonce = draw_nonce();
        Command::with_nonce(&v, nonce)
    }

    /// The command for the path `v`, closed by the given nonce.
    pub fn with_nonce(v: &Vec<Coord>, nonce: u32) -> (ret: Command)
        requires
            v@.len() >= 1,
        ensures
            ret.res@ == command_text(v@, nonce),
    {
        let mut out = String::new();
        out.append("!");
        let mut sub = Subcommand { dir: None, count: 0 };
        let mut prev = v[0];
        let mut i: usize = 1;
        proof {
            reveal_strlit("!");
            assert(out@ =~= seq!['!']);
            assert(moves(v@.take(1)) =~= Seq::<Direction>::empty());
        }
        while i < v.len()
            invariant
                1 <= i <= v.len(),
                prev == v@[i - 1],
                encoding(out@, sub, moves(v@.take(i as int))),
                sub.count < i,
            decreases v.len() - i,
        {
            let c = v[i];
            let ghost before = moves(v@.take(i as int));
            let ghost mut seen = before;
            if c.x != prev.x {
                if c.x > prev.x {
                    extend_run(&mut out, &mut sub, Direction::Right, Ghost(seen));
                    proof {
                        seen = seen.push(Direction::Right);
                    }
                }
                if c.x < prev.x {
                    extend_run(&mut out, &mut sub, Direction::Left, Ghost(seen));
                    proof {
                        seen = seen.push(Direction::Left);
                    }
                }
            }
            if c.y != prev.y {
                if c.y > prev.y {
                    extend_run(&mut out, &mut sub, Direction::Down, Ghost(seen));
                    proof {
                        seen = seen.push(Direction::Down);
                    }
                }
                if c.y < prev.y {
                    extend_run(&mut out, &mut sub, Direction::Up, Ghost(seen));
                    proof {
                        seen = seen.push(Direction::Up);
                    }
                }
            }
            proof {
                let upto = v@.take(i + 1);
                assert(upto.drop_last() =~= v@.take(i as int));
                assert(seen =~= before + step_dirs(prev, c));
                assert(moves(upto) == seen);
            }
            prev = c;
            i += 1;
        }
        let last = subcmd_to_str(sub);
        out.append(last.as_str());
        out.append("a9a9a9a9a9");
        append_decimal(&mut out, nonce);
        proof {
            reveal_strlit("a9a9a9a9a9");
            assert(v@.take(i as int) =~= v@);
            assert("a9a9a9a9a9"@ =~= trailer());
            assert(out@ =~= command_text(v@, nonce));
        }
        Command { res: out }
    }
}

} // verus!
