//! What the command text lets a reader recover: the runs, the steps, and the path itself.

use vstd::prelude::*;
use crate::command::{
    chunks_text, command_stem, command_text, moves, run_text, runs, runs_text, step_dirs, trailer,
    Direction, Run,
};
use crate::coord::Coord;
use crate::digits::{
    decimal_text, digit_char, digit_value, lemma_decimal_round_trip, lemma_decimal_text_is_digits,
    lemma_digit_round_trip, lemma_nonce_text_is_short,
};
use crate::route::adjacent;

verus! {

/// The direction that the wire character `c` stands for, where it is one.
pub open spec fn direction_of(c: char) -> Option<Direction> {
    if c == 'l' {
        Some(Direction::Left)
    } else if c == 'r' {
        Some(Direction::Right)
    } else if c == 'u' {
        Some(Direction::Up)
    } else if c == 'd' {
        Some(Direction::Down)
    } else {
        None
    }
}

/// Reads run tokens back into runs. A token with the digit `9` is a full chunk and adds nine
/// steps to the run that is being read; a token with a smaller digit closes the run with that
/// many steps more. `pending` is the number of steps that the chunks read so far have added.
/// Reading stops at the first pair of characters that is no token.
pub open spec fn decode_runs(text: Seq<char>, pending: nat) -> Seq<Run>
    decreases text.len(),
{
    if text.len() < 2 {
        Seq::empty()
    } else {
        match (direction_of(text[0]), digit_value(text[1])) {
            (Some(d), Some(k)) => {
                if k == 9 {
                    decode_runs(text.skip(2), pending + 9)
                } else {
                    seq![(d, pending + k)] + decode_runs(text.skip(2), 0)
                }
            },
            _ => Seq::empty(),
        }
    }
}

/// Every wire character reads back as its direction.
pub proof fn lemma_token_round_trip(d: Direction)
    ensures
        direction_of(d.token()) == Some(d),
{
}

/// Full chunks in front of a text add nine steps each to the run that is being read.
proof fn lemma_decode_chunks(d: Direction, k: nat, rest: Seq<char>, pending: nat)
    ensures
        decode_runs(chunks_text(d, k) + rest, pending) == decode_runs(rest, pending + 9 * k),
    decreases k,
{
    if k == 0 {
        assert(chunks_text(d, k) + rest =~= rest);
    } else {
        let chunk = seq![d.token(), '9'];
        let tail = chunk + rest;
        assert(chunks_text(d, k) + rest =~= chunks_text(d, (k - 1) as nat) + tail);
        lemma_decode_chunks(d, (k - 1) as nat, tail, pending);
        lemma_token_round_trip(d);
        assert(tail[0] == d.token() && tail[1] == '9');
        assert(tail.skip(2) =~= rest);
    }
}

/// The tokens of one run in front of a text read back as that run.
proof fn lemma_decode_run(d: Direction, count: nat, rest: Seq<char>)
    requires
        count >= 1,
    ensures
        decode_runs(run_text(d, count) + rest, 0) == seq![(d, count)] + decode_runs(rest, 0),
{
    let last = seq![d.token(), digit_char(count % 9)];
    let tail = last + rest;
    assert(run_text(d, count) + rest =~= chunks_text(d, count / 9) + tail);
    lemma_decode_chunks(d, count / 9, tail, 0);
    lemma_token_round_trip(d);
    lemma_digit_round_trip(count % 9);
    assert(tail[0] == d.token() && tail[1] == digit_char(count % 9));
    assert(tail.skip(2) =~= rest);
    assert(9 * (count / 9) + count % 9 == count);
}

/// The tokens of a sequence of runs in front of a text read back as those runs.
proof fn lemma_decode_runs(rs: Seq<Run>, rest: Seq<char>)
    requires
        forall|i: int| 0 <= i < rs.len() ==> (#[trigger] rs[i]).1 >= 1,
    ensures
        decode_runs(runs_text(rs) + rest, 0) == rs + decode_runs(rest, 0),
    decreases rs.len(),
{
    if rs.len() == 0 {
        assert(runs_text(rs) + rest =~= rest);
        assert(rs + decode_runs(rest, 0) =~= decode_runs(rest, 0));
    } else {
        let front = rs.drop_last();
        let last = rs.last();
        let tail = run_text(last.0, last.1) + rest;
        let read_rest = decode_runs(rest, 0);
        assert(runs_text(rs) + rest == runs_text(front) + tail) by {
            assert(runs_text(rs) == runs_text(front) + run_text(last.0, last.1));
            assert(runs_text(rs) + rest =~= runs_text(front) + tail);
        }
        assert(decode_runs(runs_text(front) + tail, 0) == front + decode_runs(tail, 0)) by {
            assert forall|i: int| 0 <= i < front.len() implies (#[trigger] front[i]).1 >= 1 by {
                assert(front[i] == rs[i]);
            }
            lemma_decode_runs(front, tail);
        }
        assert(decode_runs(tail, 0) == seq![last] + read_rest) by {
            lemma_decode_run(last.0, last.1, rest);
        }
        assert(front + (seq![last] + read_rest) == rs + read_rest) by {
            assert(front + (seq![last] + read_rest) =~= rs + read_rest);
        }
    }
}

/// Run-length round trip: reading the tokens of runs that each hold at least one step gives
/// back the same runs, directions and lengths alike. A run of nine, eighteen, ... steps is
/// written with a last token of zero steps, and is read back with its full length.
pub proof fn lemma_runs_round_trip(rs: Seq<Run>)
    requires
        forall|i: int| 0 <= i < rs.len() ==> (#[trigger] rs[i]).1 >= 1,
    ensures
        decode_runs(runs_text(rs), 0) == rs,
{
    lemma_decode_runs(rs, Seq::empty());
    assert(runs_text(rs) + Seq::<char>::empty() =~= runs_text(rs));
    assert(rs + Seq::<Run>::empty() =~= rs);
}

/// The steps that a sequence of runs stands for.
pub open spec fn steps_of(rs: Seq<Run>) -> Seq<Direction>
    decreases rs.len(),
{
    if rs.len() == 0 {
        Seq::empty()
    } else {
        steps_of(rs.drop_last()) + Seq::new(rs.last().1, |i: int| rs.last().0)
    }
}

/// Grouping steps into runs loses nothing: every run holds at least one step, neighbouring
/// runs differ in direction, and the runs stand for the very steps they were made of.
pub proof fn lemma_runs_are_faithful(steps: Seq<Direction>)
    ensures
        forall|i: int| 0 <= i < runs(steps).len() ==> (#[trigger] runs(steps)[i]).1 >= 1,
        forall|i: int|
            0 <= i < runs(steps).len() - 1 ==> (#[trigger] runs(steps)[i]).0 != runs(steps)[i
                + 1].0,
        steps_of(runs(steps)) == steps,
        steps.len() > 0 ==> runs(steps).len() > 0 && runs(steps).last().0 == steps.last(),
    decreases steps.len(),
{
    if steps.len() > 0 {
        let front = steps.drop_last();
        let d = steps.last();
        let before = runs(front);
        let after = runs(steps);
        lemma_runs_are_faithful(front);
        if before.len() > 0 && before.last().0 == d {
            let n = before.last().1;
            assert(after == before.drop_last().push((d, n + 1)));
            assert(after.drop_last() =~= before.drop_last());
            assert forall|i: int| 0 <= i < after.len() - 1 implies (#[trigger] after[i]).0
                != after[i + 1].0 by {
                assert(after[i] == before[i]);
                assert(before[i].0 != before[i + 1].0);
            }
            assert(Seq::new(n + 1, |i: int| d) =~= Seq::new(n, |i: int| d).push(d));
            assert(steps_of(before) == steps_of(before.drop_last()) + Seq::new(n, |i: int| d));
            assert(steps_of(after) =~= steps_of(before).push(d));
            assert(front.push(d) =~= steps);
        } else {
            assert(after == before.push((d, 1nat)));
            assert(after.drop_last() =~= before);
            assert forall|i: int| 0 <= i < after.len() - 1 implies (#[trigger] after[i]).0
                != after[i + 1].0 by {
                assert(after[i] == before[i]);
                if i + 1 < before.len() {
                    assert(after[i + 1] == before[i + 1]);
                    assert(before[i].0 != before[i + 1].0);
                }
            }
            assert(Seq::new(1nat, |i: int| d) =~= seq![d]);
            assert(steps_of(after) =~= steps_of(before).push(d));
            assert(front.push(d) =~= steps);
        }
    }
}

/// The run tokens of any path read back as the runs of that path.
pub proof fn lemma_path_runs_round_trip(path: Seq<Coord>)
    ensures
        decode_runs(runs_text(runs(moves(path))), 0) == runs(moves(path)),
{
    lemma_runs_are_faithful(moves(path));
    lemma_runs_round_trip(runs(moves(path)));
}

/// Two commands for one path differ in nothing but the digits of their nonces: both are the
/// same stem followed by the decimal notation of the nonce, and they are the same text only
/// where the nonces are the same.
pub proof fn lemma_commands_differ_in_nonce_only(path: Seq<Coord>, a: u32, b: u32)
    ensures
        command_text(path, a).take(command_stem(path).len() as int) == command_stem(path),
        command_text(path, b).take(command_stem(path).len() as int) == command_stem(path),
        command_text(path, a).skip(command_stem(path).len() as int) == decimal_text(a as nat),
        command_text(path, b).skip(command_stem(path).len() as int) == decimal_text(b as nat),
        command_text(path, a) == command_text(path, b) <==> a == b,
{
    let stem = command_stem(path);
    let n = stem.len() as int;
    assert(command_text(path, a).take(n) =~= stem);
    assert(command_text(path, b).take(n) =~= stem);
    assert(command_text(path, a).skip(n) =~= decimal_text(a as nat));
    assert(command_text(path, b).skip(n) =~= decimal_text(b as nat));
    lemma_decimal_round_trip(a as nat);
    lemma_decimal_round_trip(b as nat);
}

/// Whether `text` is made of tokens: pairs of a wire character and a decimal digit.
pub open spec fn is_tokens(text: Seq<char>) -> bool {
    &&& text.len() % 2 == 0
    &&& forall|i: int|
        0 <= i < text.len() ==> if i % 2 == 0 {
            direction_of(#[trigger] text[i]) is Some
        } else {
            digit_value(text[i]) is Some
        }
}

/// Tokens after tokens are tokens.
proof fn lemma_tokens_concat(a: Seq<char>, b: Seq<char>)
    requires
        is_tokens(a),
        is_tokens(b),
    ensures
        is_tokens(a + b),
{
    let both = a + b;
    assert forall|i: int| 0 <= i < both.len() implies if i % 2 == 0 {
        direction_of(#[trigger] both[i]) is Some
    } else {
        digit_value(both[i]) is Some
    } by {
        if i < a.len() {
            assert(both[i] == a[i]);
        } else {
            assert(both[i] == b[i - a.len()]);
        }
    }
}

/// Full chunks are tokens.
proof fn lemma_chunks_are_tokens(d: Direction, k: nat)
    ensures
        is_tokens(chunks_text(d, k)),
    decreases k,
{
    if k > 0 {
        lemma_chunks_are_tokens(d, (k - 1) as nat);
        lemma_token_round_trip(d);
        lemma_tokens_concat(chunks_text(d, (k - 1) as nat), seq![d.token(), '9']);
    }
}

/// The text of runs is made of tokens alone.
pub proof fn lemma_runs_text_is_tokens(rs: Seq<Run>)
    ensures
        is_tokens(runs_text(rs)),
    decreases rs.len(),
{
    if rs.len() > 0 {
        let d = rs.last().0;
        let count = rs.last().1;
        lemma_runs_text_is_tokens(rs.drop_last());
        if count > 0 {
            lemma_chunks_are_tokens(d, count / 9);
            lemma_token_round_trip(d);
            lemma_digit_round_trip(count % 9);
            lemma_tokens_concat(chunks_text(d, count / 9), seq![d.token(), digit_char(count % 9)]);
        }
        lemma_tokens_concat(runs_text(rs.drop_last()), run_text(d, count));
    }
}

/// Every command has the shape of the wire format: `!`, then tokens, then the trailer, then
/// one to ten decimal digits that begin with `0` only where the nonce is zero.
pub proof fn lemma_command_has_wire_shape(path: Seq<Coord>, nonce: u32)
    ensures
        command_text(path, nonce) == seq!['!'] + runs_text(runs(moves(path))) + trailer()
            + decimal_text(nonce as nat),
        is_tokens(runs_text(runs(moves(path)))),
        1 <= decimal_text(nonce as nat).len() <= 10,
        forall|i: int|
            0 <= i < decimal_text(nonce as nat).len() ==> digit_value(
                #[trigger] decimal_text(nonce as nat)[i],
            ) is Some,
        nonce > 0 ==> decimal_text(nonce as nat).first() != '0',
{
    lemma_runs_text_is_tokens(runs(moves(path)));
    lemma_decimal_text_is_digits(nonce as nat);
    lemma_nonce_text_is_short(nonce);
}

/// The cell one unit from `c` in direction `d`.
pub open spec fn step_from(c: Coord, d: Direction) -> Coord {
    match d {
        Direction::Left => Coord { x: (c.x - 1) as usize, y: c.y },
        Direction::Right => Coord { x: (c.x + 1) as usize, y: c.y },
        Direction::Up => Coord { x: c.x, y: (c.y - 1) as usize },
        Direction::Down => Coord { x: c.x, y: (c.y + 1) as usize },
    }
}

/// The cells that a walker visits who starts on `start` and takes `steps` one by one.
pub open spec fn walk_from(start: Coord, steps: Seq<Direction>) -> Seq<Coord>
    decreases steps.len(),
{
    if steps.len() == 0 {
        seq![start]
    } else {
        let before = walk_from(start, steps.drop_last());
        before.push(step_from(before.last(), steps.last()))
    }
}

/// A chain of neighbours is recovered from its first cell and its steps: it has one step for
/// every move, and taking those steps from the first cell visits the chain's cells in order.
pub proof fn lemma_steps_retrace_the_path(path: Seq<Coord>)
    requires
        path.len() >= 1,
        forall|i: int| 0 <= i < path.len() - 1 ==> adjacent(#[trigger] path[i], path[i + 1]),
    ensures
        moves(path).len() == path.len() - 1,
        walk_from(path.first(), moves(path)) == path,
    decreases path.len(),
{
    if path.len() == 1 {
        assert(walk_from(path.first(), moves(path)) =~= path);
    } else {
        let front = path.drop_last();
        let a = path[path.len() - 2];
        let b = path[path.len() - 1];
        assert forall|i: int| 0 <= i < front.len() - 1 implies adjacent(
            #[trigger] front[i],
            front[i + 1],
        ) by {
            assert(adjacent(path[i], path[i + 1]));
        }
        lemma_steps_retrace_the_path(front);
        assert(adjacent(a, path[path.len() - 2 + 1]));
        let step = step_dirs(a, b);
        assert(step.len() == 1);
        assert(step_from(a, step[0]) == b);
        assert(moves(path) == moves(front) + step);
        assert(moves(path) =~= moves(front).push(step[0]));
        assert(moves(path).drop_last() =~= moves(front));
        assert(front.push(b) =~= path);
    }
}

} // verus!
