//! Durations as text: `hh:mm:ss`.

use vstd::prelude::*;

verus! {

/// `String::push` appends one character to the end of the string.
pub assume_specification[ String::push ](s: &mut String, c: char)
    ensures
        final(s)@ == old(s)@.push(c),
;

/// Division that rounds towards zero, as machine integers divide.
pub open spec fn quotient(a: int, b: int) -> int {
    if a >= 0 {
        a / b
    } else {
        -((-a) / b)
    }
}

/// The remainder that goes with `quotient`; it has the sign of `a`.
pub open spec fn remainder(a: int, b: int) -> int {
    a - b * quotient(a, b)
}

/// The character of one decimal digit.
pub open spec fn digit(d: int) -> char {
    if d == 0 {
        '0'
    } else if d == 1 {
        '1'
    } else if d == 2 {
        '2'
    } else if d == 3 {
        '3'
    } else if d == 4 {
        '4'
    } else if d == 5 {
        '5'
    } else if d == 6 {
        '6'
    } else if d == 7 {
        '7'
    } else if d == 8 {
        '8'
    } else {
        '9'
    }
}

/// The decimal digits of `n`, without leading zeros.
pub open spec fn decimal(n: nat) -> Seq<char>
    decreases n,
{
    if n < 10 {
        seq![digit(n as int)]
    } else {
        decimal(n / 10).push(digit((n % 10) as int))
    }
}

/// A number at least two characters wide: a single digit gets a zero in
/// front, a negative number its sign.
pub open spec fn two_wide(v: int) -> Seq<char> {
    if v < 0 {
        seq!['-'] + decimal((-v) as nat)
    } else if v < 10 {
        seq!['0', digit(v)]
    } else {
        decimal(v as nat)
    }
}

/// Hours, minutes and seconds of a duration in seconds, separated by colons.
pub open spec fn duration_text(duration: int) -> Seq<char> {
    two_wide(quotient(duration, 3600)) + seq![':'] + two_wide(
        remainder(quotient(duration, 60), 60),
    ) + seq![':'] + two_wide(remainder(duration, 60))
}

fn digit_char(d: u64) -> (c: char)
    requires
        d < 10,
    ensures
        c == digit(d as int),
{
    if d == 0 {
        '0'
    } else if d == 1 {
        '1'
    } else if d == 2 {
        '2'
    } else if d == 3 {
        '3'
    } else if d == 4 {
        '4'
    } else if d == 5 {
        '5'
    } else if d == 6 {
        '6'
    } else if d == 7 {
        '7'
    } else if d == 8 {
        '8'
    } else {
        '9'
    }
}

fn push_decimal(text: &mut String, n: u64)
    ensures
        final(text)@ == old(text)@ + decimal(n as nat),
    decreases n,
{
    if n >= 10 {
        push_decimal(text, n / 10);
    }
    text.push(digit_char(n % 10));
    assert(final(text)@ =~= old(text)@ + decimal(n as nat));
}

fn push_two_wide(text: &mut String, v: i64)
    requires
        v > i64::MIN,
    ensures
        final(text)@ == old(text)@ + two_wide(v as int),
{
    if v < 0 {
        text.push('-');
        push_decimal(text, (-v) as u64);
    } else if v < 10 {
        text.push('0');
        text.push(digit_char(v as u64));
    } else {
        push_decimal(text, v as u64);
    }
    assert(final(text)@ =~= old(text)@ + two_wide(v as int));
}

/// Writes a duration in seconds as `hh:mm:ss`.
pub fn format_duration(duration: i32) -> (text: String)
    ensures
        text@ == duration_text(duration as int),
{
    let d: i64 = duration as i64;
    let seconds: i64 = d % 60;
    let minutes: i64 = (d / 60) % 60;
    let hours: i64 = d / 3600;
    let mut text: String = String::new();
    push_two_wide(&mut text, hours);
    text.push(':');
    push_two_wide(&mut text, minutes);
    text.push(':');
    push_two_wide(&mut text, seconds);
    assert(text@ =~= duration_text(duration as int));
    text
}

} // verus!
