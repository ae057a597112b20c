//! Decimal digits: the text of counts and of the nonce.

use vstd::prelude::*;
use vstd::string::StringExecFns;

verus! {

/// The character of the decimal digit `d`, for `d` below ten.
pub open spec fn digit_char(d: nat) -> char {
    if d == 0 {
        '0'
    } else if d == 1 {
        '1'
    } else if d == 2 {
        '2'
    } else if d == 3 {
        '3'
    } else if d == 4 {
        '4'
    } else if d == 5 {
        '5'
    } else if d == 6 {
        '6'
    } else if d == 7 {
        '7'
    } else if d == 8 {
        '8'
    } else {
        '9'
    }
}

/// The decimal notation of `n`: most significant digit first, no leading zero but for zero
/// itself, no separators.
pub open spec fn decimal_text(n: nat) -> Seq<char>
    decreases n,
{
    if n < 10 {
        seq![digit_char(n)]
    } else {
        decimal_text(n / 10).push(digit_char(n % 10))
    }
}

/// The one-character text of the digit `d`.
pub fn digit_str(d: u32) -> (res: &'static str)
    requires
        d < 10,
    ensures
        res@ == seq![digit_char(d as nat)],
{
    proof {
        reveal_strlit("0");
        reveal_strlit("1");
        reveal_strlit("2");
        reveal_strlit("3");
        reveal_strlit("4");
        reveal_strlit("5");
        reveal_strlit("6");
        reveal_strlit("7");
        reveal_strlit("8");
        reveal_strlit("9");
    }
    let res = if d == 0 {
        "0"
    } else if d == 1 {
        "1"
    } else if d == 2 {
        "2"
    } else if d == 3 {
        "3"
    } else if d == 4 {
        "4"
    } else if d == 5 {
        "5"
    } else if d == 6 {
        "6"
    } else if d == 7 {
        "7"
    } else if d == 8 {
        "8"
    } else {
        "9"
    };
    assert(res@ =~= seq![digit_char(d as nat)]);
    res
}

/// Appends the decimal notation of `n` to `out`.
pub fn append_decimal(out: &mut String, n: u32)
    ensures
        final(out)@ == old(out)@ + decimal_text(n as nat),
    decreases n,
{
    if n >= 10 {
        append_decimal(out, n / 10);
    }
    out.append(digit_str(n % 10));
    assert(out@ =~= old(out)@ + decimal_text(n as nat));
}

/// The decimal notation of `n` as a string.
pub fn decimal_string(n: u32) -> (res: String)
    ensures
        res@ == decimal_text(n as nat),
{
    let mut res = String::new();
    append_decimal(&mut res, n);
    assert(res@ =~= decimal_text(n as nat));
    res
}

/// The number that the decimal digit `c` stands for, where it is one.
pub open spec fn digit_value(c: char) -> Option<nat> {
    if c == '0' {
        Some(0nat)
    } else if c == '1' {
        Some(1nat)
    } else if c == '2' {
        Some(2nat)
    } else if c == '3' {
        Some(3nat)
    } else if c == '4' {
        Some(4nat)
    } else if c == '5' {
        Some(5nat)
    } else if c == '6' {
        Some(6nat)
    } else if c == '7' {
        Some(7nat)
    } else if c == '8' {
        Some(8nat)
    } else if c == '9' {
        Some(9nat)
    } else {
        None
    }
}

/// The number that a text of decimal digits denotes; a character that is no digit counts as
/// zero.
pub open spec fn decimal_value(text: Seq<char>) -> nat
    decreases text.len(),
{
    if text.len() == 0 {
        0
    } else {
        let last = match digit_value(text.last()) {
            Some(d) => d,
            None => 0,
        };
        decimal_value(text.drop_last()) * 10 + last
    }
}

/// Every digit reads back as the number it was written for.
pub proof fn lemma_digit_round_trip(d: nat)
    requires
        d < 10,
    ensures
        digit_value(digit_char(d)) == Some(d),
{
}

/// The decimal notation of a number denotes that number, so that two numbers with the same
/// notation are the same.
pub proof fn lemma_decimal_round_trip(n: nat)
    ensures
        decimal_value(decimal_text(n)) == n,
    decreases n,
{
    let text = decimal_text(n);
    if n < 10 {
        lemma_digit_round_trip(n);
        assert(text.drop_last() =~= Seq::<char>::empty());
        assert(decimal_value(text.drop_last()) == 0);
    } else {
        lemma_decimal_round_trip(n / 10);
        lemma_digit_round_trip(n % 10);
        assert(text.drop_last() =~= decimal_text(n / 10));
    }
}

/// The decimal notation of a number is made of digits alone, at least one, and begins with
/// `0` only for zero itself.
pub proof fn lemma_decimal_text_is_digits(n: nat)
    ensures
        decimal_text(n).len() >= 1,
        forall|i: int|
            0 <= i < decimal_text(n).len() ==> digit_value(#[trigger] decimal_text(n)[i]) is Some,
        n > 0 ==> decimal_text(n).first() != '0',
    decreases n,
{
    if n >= 10 {
        lemma_decimal_text_is_digits(n / 10);
        lemma_digit_round_trip(n % 10);
    } else {
        lemma_digit_round_trip(n);
    }
}

/// A number below `10^k` has at most `k` digits; a nonce, which is below `2^32`, at most ten.
pub proof fn lemma_nonce_text_is_short(nonce: u32)
    ensures
        1 <= decimal_text(nonce as nat).len() <= 10,
{
    let n = nonce as nat;
    lemma_decimal_text_is_digits(n);
    reveal_with_fuel(decimal_text, 11);
}

} // verus!
