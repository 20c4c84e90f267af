//! Whole-pixel arithmetic. Every length in this crate is an `i64` count of
//! pixels, and every sum saturates: a result outside the range of `i64` sticks
//! to the nearest bound instead of wrapping or failing.

use vstd::prelude::*;
use crate::text::{chars_of, decimal_text, digit_char, digits_of};

verus! {

/// `v` brought into the range of `i64`.
pub open spec fn clamp(v: int) -> i64 {
    if v < i64::MIN {
        i64::MIN
    } else if v > i64::MAX {
        i64::MAX
    } else {
        v as i64
    }
}

/// Whether `v` is in the range of `i64`, so that a sum that comes to `v` did
/// not saturate.
pub open spec fn fits(v: int) -> bool {
    i64::MIN <= v <= i64::MAX
}

/// The saturating sum of two lengths.
pub open spec fn plus(a: i64, b: i64) -> i64 {
    clamp(a + b)
}

/// The saturating difference of two lengths.
pub open spec fn minus(a: i64, b: i64) -> i64 {
    clamp(a - b)
}

/// Narrows a wide intermediate result to `i64`, saturating.
pub fn saturate(v: i128) -> (r: i64)
    ensures
        r == clamp(v as int),
{
    if v > i64::MAX as i128 {
        i64::MAX
    } else if v < i64::MIN as i128 {
        i64::MIN
    } else {
        v as i64
    }
}

/// Saturating sum.
pub fn sat_add(a: i64, b: i64) -> (r: i64)
    ensures
        r == plus(a, b),
{
    saturate(a as i128 + b as i128)
}

/// Saturating difference.
pub fn sat_sub(a: i64, b: i64) -> (r: i64)
    ensures
        r == minus(a, b),
{
    saturate(a as i128 - b as i128)
}

/// `percent` hundredths of `whole`, rounded down.
pub open spec fn percent_of(percent: int, whole: int) -> int {
    (percent * whole) / 100
}

/// `percent` hundredths of `whole`, rounded down and saturated.
pub fn sat_percent(percent: i64, whole: i64) -> (r: i64)
    ensures
        r == clamp(percent_of(percent as int, whole as int)),
{
    assert(-0x4000_0000_0000_0000_0000_0000_0000_0000 <= percent * whole
        <= 0x4000_0000_0000_0000_0000_0000_0000_0000) by (nonlinear_arith)
        requires
            -0x8000_0000_0000_0000 <= percent <= 0x8000_0000_0000_0000,
            -0x8000_0000_0000_0000 <= whole <= 0x8000_0000_0000_0000,
    ;
    let product: i128 = (percent as i128) * (whole as i128);
    let quotient: i128 = if product >= 0 {
        product / 100
    } else {
        -((99 - product) / 100)
    };
    saturate(quotient)
}

/// Half of `a`, rounded down.
pub fn half(a: i64) -> (r: i64)
    ensures
        r == a / 2,
{
    let wide: i128 = a as i128;
    let quotient: i128 = if wide >= 0 {
        wide / 2
    } else {
        -((1 - wide) / 2)
    };
    quotient as i64
}

/// Whether `c` is one of the ten ASCII digits.
pub open spec fn is_digit(c: char) -> bool {
    '0' <= c && c <= '9'
}

/// The number a digit stands for.
pub open spec fn digit_value(c: char) -> int {
    c as u32 - '0' as u32
}

/// The first index at or after `from` that holds no digit; the length of `s`
/// if digits run to its end.
pub open spec fn digits_end(s: Seq<char>, from: int) -> int
    decreases s.len() - from,
{
    if 0 <= from < s.len() && is_digit(s[from]) {
        digits_end(s, from + 1)
    } else {
        from
    }
}

/// The decimal number written by the digits of `s` from `from` up to `to`.
pub open spec fn digits_value(s: Seq<char>, from: int, to: int) -> int
    decreases to - from,
{
    if from >= to {
        0
    } else {
        digits_value(s, from, to - 1) * 10 + digit_value(s[to - 1])
    }
}

/// Where the digits of a number start: after one leading sign, if there is one.
pub open spec fn digits_start(s: Seq<char>) -> int {
    if s.len() > 0 && (s[0] == '+' || s[0] == '-') {
        1
    } else {
        0
    }
}

/// Whether `s` is a plain decimal number: an optional sign, digits, and
/// optionally a point followed by more digits, with at least one digit in all.
pub open spec fn is_numeric(s: Seq<char>) -> bool {
    let start = digits_start(s);
    let whole_end = digits_end(s, start);
    if whole_end == s.len() {
        whole_end > start
    } else {
        &&& s[whole_end] == '.'
        &&& digits_end(s, whole_end + 1) == s.len()
        &&& s.len() - 1 > start
    }
}

/// The whole pixels that a plain decimal number stands for: its integer part,
/// with its sign. `None` for any other string.
pub open spec fn numeric_value(s: Seq<char>) -> Option<int> {
    if is_numeric(s) {
        let start = digits_start(s);
        let magnitude = digits_value(s, start, digits_end(s, start));
        if s[0] == '-' {
            Some(-magnitude)
        } else {
            Some(magnitude)
        }
    } else {
        None
    }
}

/// Reads a plain decimal number. The fraction is dropped and a number too
/// large for `i64` saturates.
pub fn parse_number(s: &str) -> (r: Option<i64>)
    ensures
        r == match numeric_value(s@) {
            Some(v) => Some(clamp(v)),
            None => None,
        },
{
    let chars = chars_of(s);
    let n = chars.len();
    let mut i: usize = 0;
    let mut negative = false;
    if n > 0 {
        let first = chars[0];
        if first == '+' || first == '-' {
            negative = first == '-';
            i = 1;
        }
    }
    let start = i;
    let mut magnitude: i128 = 0;
    let cap: i128 = 0x8000_0000_0000_0000;
    while i < n && is_digit_char(chars[i])
        invariant
            start <= i <= n,
            n == s@.len(),
            chars@ == s@,
            cap == 0x8000_0000_0000_0000,
            digits_end(s@, start as int) == digits_end(s@, i as int),
            0 <= digits_value(s@, start as int, i as int),
            magnitude == if digits_value(s@, start as int, i as int) < cap {
                digits_value(s@, start as int, i as int)
            } else {
                cap as int
            },
        decreases n - i,
    {
        let c = chars[i];
        let d: i128 = (c as u32 - '0' as u32) as i128;
        let next: i128 = magnitude * 10 + d;
        magnitude = if next < cap { next } else { cap };
        i += 1;
    }
    let whole_end = i;
    let well_formed = if whole_end == n {
        whole_end > start
    } else if chars[whole_end] == '.' {
        i += 1;
        while i < n && is_digit_char(chars[i])
            invariant
                whole_end < i <= n,
                n == s@.len(),
                chars@ == s@,
                digits_end(s@, whole_end + 1) == digits_end(s@, i as int),
            decreases n - i,
        {
            i += 1;
        }
        i == n && n - 1 > start
    } else {
        false
    };
    if well_formed {
        if negative {
            Some(saturate(-magnitude))
        } else {
            Some(saturate(magnitude))
        }
    } else {
        None
    }
}

/// Whether `c` is one of the ten ASCII digits.
pub fn is_digit_char(c: char) -> (r: bool)
    ensures
        r == is_digit(c),
{
    '0' <= c && c <= '9'
}

/// The digits of a number are digits, and there is at least one.
proof fn lemma_digits_are_digits(n: int)
    requires
        0 <= n,
    ensures
        digits_of(n).len() > 0,
        forall|i: int| 0 <= i < digits_of(n).len() ==> is_digit(#[trigger] digits_of(n)[i]),
    decreases n,
{
    if n >= 10 {
        lemma_digits_are_digits(n / 10);
    }
}

/// Where digits run from `from` to the end of `s`, they end there.
proof fn lemma_digits_end_at_end(s: Seq<char>, from: int)
    requires
        0 <= from <= s.len(),
        forall|i: int| from <= i < s.len() ==> is_digit(#[trigger] s[i]),
    ensures
        digits_end(s, from) == s.len(),
    decreases s.len() - from,
{
    if from < s.len() {
        lemma_digits_end_at_end(s, from + 1);
    }
}

/// The number that digits write depends on those digits alone.
proof fn lemma_digits_value_of_same_digits(a: Seq<char>, b: Seq<char>, from: int, to: int)
    requires
        0 <= from <= to <= a.len(),
        to <= b.len(),
        forall|i: int| from <= i < to ==> a[i] == b[i],
    ensures
        digits_value(a, from, to) == digits_value(b, from, to),
    decreases to - from,
{
    if from < to {
        lemma_digits_value_of_same_digits(a, b, from, to - 1);
    }
}

/// The digits of a number write that number, whatever stands before them.
proof fn lemma_digits_write_their_number(prefix: Seq<char>, n: int)
    requires
        0 <= n,
    ensures
        digits_value(
            prefix + digits_of(n),
            prefix.len() as int,
            (prefix + digits_of(n)).len() as int,
        ) == n,
    decreases n,
{
    let s = prefix + digits_of(n);
    let from = prefix.len() as int;
    if n >= 10 {
        let shorter = prefix + digits_of(n / 10);
        lemma_digits_write_their_number(prefix, n / 10);
        assert(s =~= shorter.push(digit_char(n % 10)));
        lemma_digits_value_of_same_digits(s, shorter, from, shorter.len() as int);
        assert(digits_value(s, from, s.len() as int) == digits_value(s, from, s.len() - 1) * 10
            + digit_value(s[s.len() - 1]));
    } else {
        assert(digits_value(s, from, from + 1) == digits_value(s, from, from) * 10 + digit_value(
            s[from],
        ));
    }
}

/// Reading gives back what writing wrote: the decimal text of a number is a
/// plain decimal number and stands for that number.
pub proof fn lemma_decimal_text_reads_back(n: int)
    ensures
        numeric_value(decimal_text(n)) == Some(n),
{
    let magnitude = if n < 0 {
        -n
    } else {
        n
    };
    let prefix: Seq<char> = if n < 0 {
        seq!['-']
    } else {
        Seq::empty()
    };
    let s = decimal_text(n);
    lemma_digits_are_digits(magnitude);
    assert(s =~= prefix + digits_of(magnitude));
    assert(digits_start(s) == prefix.len());
    lemma_digits_end_at_end(s, prefix.len() as int);
    lemma_digits_write_their_number(prefix, magnitude);
}

} // verus!
