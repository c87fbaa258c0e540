//! Decimal numerals: reading a count out of a token and writing one back.

use vstd::prelude::*;
use crate::classify::{is_digit, is_digit_char, numeric};

verus! {

/// The value of a decimal digit.
pub open spec fn digit_value(c: char) -> nat {
    (c as u32 - '0' as u32) as nat
}

/// The number that the digits of `t` denote, most significant digit first.
pub open spec fn decimal_value(t: Seq<char>) -> nat
    decreases t.len(),
{
    if t.len() == 0 {
        0
    } else {
        decimal_value(t.drop_last()) * 10 + digit_value(t.last())
    }
}

/// The number that `t` denotes, where `t` is a numeral no greater than `max`.
pub open spec fn numeral(t: Seq<char>, max: nat) -> Option<nat> {
    if numeric(t) && decimal_value(t) <= max {
        Some(decimal_value(t))
    } else {
        None
    }
}

/// Whether `t` reads as an unsigned 64-bit integer: digits, with an optional
/// `+` in front, that denote a number within range.
pub open spec fn unsigned_text(t: Seq<char>) -> bool {
    let digits = if t.len() > 0 && t[0] == '+' {
        t.skip(1)
    } else {
        t
    };
    numeral(digits, u64::MAX as nat) is Some
}

/// A longer prefix of a numeral denotes no smaller a number.
pub proof fn lemma_decimal_value_grows(t: Seq<char>, k: int)
    requires
        0 <= k <= t.len(),
    ensures
        decimal_value(t.take(k)) <= decimal_value(t),
    decreases t.len() - k,
{
    if k < t.len() {
        lemma_decimal_value_grows(t, k + 1);
        assert(t.take(k + 1).drop_last() == t.take(k));
    } else {
        assert(t.take(k) == t);
    }
}

/// Reads `t` as a number no greater than `max`.
pub fn parse_decimal(t: &[char], max: u64) -> (r: Option<u64>)
    ensures
        match r {
            Some(n) => numeral(t@, max as nat) == Some(n as nat),
            None => numeral(t@, max as nat) is None,
        },
{
    if t.len() == 0 {
        return None;
    }
    let mut acc: u64 = 0;
    let mut i: usize = 0;
    while i < t.len()
        invariant
            i <= t.len(),
            acc <= max,
            acc == decimal_value(t@.take(i as int)),
            forall|j: int| 0 <= j < i ==> is_digit(#[trigger] t@[j]),
        decreases t.len() - i,
    {
        let c = t[i];
        if !is_digit_char(c) {
            return None;
        }
        let d: u64 = (c as u32 - '0' as u32) as u64;
        proof {
            assert(t@.take(i + 1).drop_last() == t@.take(i as int));
            assert(decimal_value(t@.take(i + 1)) == acc * 10 + d);
            lemma_decimal_value_grows(t@, i + 1);
        }
        if d > max || acc > (max - d) / 10 {
            return None;
        }
        acc = acc * 10 + d;
        i += 1;
    }
    proof {
        assert(t@.take(t.len() as int) == t@);
    }
    Some(acc)
}

/// Whether `t` reads as an unsigned 64-bit integer.
pub fn is_unsigned_text(t: &[char]) -> (b: bool)
    ensures
        b == unsigned_text(t@),
{
    if t.len() > 0 && t[0] == '+' {
        let digits = vstd::slice::slice_subrange(t, 1, t.len());
        parse_decimal(digits, u64::MAX).is_some()
    } else {
        parse_decimal(t, u64::MAX).is_some()
    }
}

/// The character of a decimal digit.
pub open spec fn digit_char(d: nat) -> char
    recommends
        d < 10,
{
    (d + '0' as u32) as char
}

/// The decimal numeral of `n`, without leading zeros.
pub open spec fn digits_of(n: nat) -> Seq<char>
    decreases n,
{
    if n < 10 {
        seq![digit_char(n)]
    } else {
        digits_of(n / 10).push(digit_char(n % 10))
    }
}

fn digit_of(d: usize) -> (c: char)
    requires
        d < 10,
    ensures
        c == digit_char(d as nat),
{
    if d == 0 {
        '0'
    } else if d == 1 {
        '1'
    } else if d == 2 {
        '2'
    } else if d == 3 {
        '3'
    } else if d == 4 {
        '4'
    } else if d == 5 {
        '5'
    } else if d == 6 {
        '6'
    } else if d == 7 {
        '7'
    } else if d == 8 {
        '8'
    } else {
        '9'
    }
}

/// Appends the decimal numeral of `n` to `out`.
pub fn push_decimal(out: &mut Vec<char>, n: usize)
    ensures
        final(out)@ == old(out)@ + digits_of(n as nat),
    decreases n,
{
    if n >= 10 {
        push_decimal(out, n / 10);
    }
    out.push(digit_of(n % 10));
    proof {
        if n >= 10 {
            assert(old(out)@ + digits_of(n as nat / 10).push(digit_char(n as nat % 10)) == (old(
                out,
            )@ + digits_of(n as nat / 10)).push(digit_char(n as nat % 10)));
        } else {
            assert(old(out)@ + seq![digit_char(n as nat)] == old(out)@.push(digit_char(n as nat)));
        }
    }
}

} // verus!
