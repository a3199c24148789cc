//! Decimal integers as text.

use crate::chars::{digit, digit_value, is_digit};
use vstd::prelude::*;
use vstd::slice::slice_subrange;

verus! {

/// Every character of `s` is a decimal digit.
pub open spec fn all_digits(s: Seq<char>) -> bool {
    forall|k: int| 0 <= k < s.len() ==> is_digit(#[trigger] s[k])
}

/// The number that the digits of `s` write in base ten.
pub open spec fn decimal(s: Seq<char>) -> nat
    decreases s.len(),
{
    if s.len() == 0 {
        0
    } else {
        decimal(s.drop_last()) * 10 + digit_value(s.last())
    }
}

/// The integer that `s` writes: an optional sign, `+` or, where `signed`,
/// `-`, and then one or more decimal digits and nothing else.
pub open spec fn integer(s: Seq<char>, signed: bool) -> Option<int> {
    if s.len() > 0 && (s[0] == '+' || (signed && s[0] == '-')) {
        let digits = s.drop_first();
        if digits.len() > 0 && all_digits(digits) {
            Some(
                if s[0] == '-' {
                    -(decimal(digits) as int)
                } else {
                    decimal(digits) as int
                },
            )
        } else {
            None
        }
    } else if s.len() > 0 && all_digits(s) {
        Some(decimal(s) as int)
    } else {
        None
    }
}

/// The integer that `s` writes, where it lies between `min` and `max`.
pub open spec fn integer_within(s: Seq<char>, signed: bool, min: int, max: int) -> Option<int> {
    match integer(s, signed) {
        Some(v) => if min <= v <= max {
            Some(v)
        } else {
            None
        },
        None => None,
    }
}

/// A prefix of a digit string writes no larger a number than the whole.
pub proof fn lemma_decimal_prefix(s: Seq<char>, k: int)
    requires
        0 <= k <= s.len(),
    ensures
        decimal(s.take(k)) <= decimal(s),
    decreases s.len(),
{
    if k == s.len() {
        assert(s.take(k) =~= s);
    } else {
        assert(s.drop_last().take(k) =~= s.take(k));
        lemma_decimal_prefix(s.drop_last(), k);
    }
}

/// Reads `digits` as a number written in base ten that is at most `limit`.
pub fn parse_magnitude(digits: &[char], limit: u128) -> (r: Option<u128>)
    ensures
        r is Some <==> digits@.len() > 0 && all_digits(digits@) && decimal(digits@) <= limit,
        r is Some ==> r.unwrap() == decimal(digits@),
{
    let n: usize = digits.len();
    if n == 0 {
        return None;
    }
    let mut acc: u128 = 0;
    let mut k: usize = 0;
    assert(digits@.take(0) =~= Seq::<char>::empty());
    while k < n
        invariant
            k <= n == digits@.len(),
            all_digits(digits@.take(k as int)),
            acc == decimal(digits@.take(k as int)),
            acc <= limit,
        decreases n - k,
    {
        let ghost seen = digits@.take(k as int);
        let ghost more = digits@.take(k + 1);
        assert(more.drop_last() =~= seen);
        assert(more.last() == digits@[k as int]);
        proof {
            lemma_decimal_prefix(digits@, k + 1);
        }
        let d: u8 = match digit(digits[k]) {
            Some(d) => d,
            None => {
                assert(!is_digit(digits@[k as int]));
                return None;
            },
        };
        let tens: u128 = match acc.checked_mul(10) {
            Some(t) => t,
            None => {
                return None;
            },
        };
        let next: u128 = match tens.checked_add(d as u128) {
            Some(t) => t,
            None => {
                return None;
            },
        };
        if next > limit {
            return None;
        }
        assert forall|j: int| 0 <= j < more.len() implies is_digit(#[trigger] more[j]) by {
            if j < seen.len() {
                assert(more[j] == seen[j]);
            }
        }
        acc = next;
        k += 1;
    }
    assert(digits@.take(n as int) =~= digits@);
    Some(acc)
}

/// Reads `text` as an integer without a minus sign that is at most `max`.
pub fn parse_unsigned(text: &[char], max: u128) -> (r: Option<u128>)
    ensures
        r is Some <==> integer_within(text@, false, 0, max as int) is Some,
        r is Some ==> integer_within(text@, false, 0, max as int) == Some(r.unwrap() as int),
{
    let n: usize = text.len();
    if n == 0 {
        return None;
    }
    let start: usize = if text[0] == '+' {
        1
    } else {
        0
    };
    assert(text@.subrange(1, n as int) =~= text@.drop_first());
    assert(text@.subrange(0, n as int) =~= text@);
    parse_magnitude(slice_subrange(text, start, n), max)
}

/// Reads `text` as an integer between `min` and `max`.
pub fn parse_signed(text: &[char], min: i128, max: i128) -> (r: Option<i128>)
    ensures
        r is Some <==> integer_within(text@, true, min as int, max as int) is Some,
        r is Some ==> integer_within(text@, true, min as int, max as int) == Some(
            r.unwrap() as int,
        ),
{
    let n: usize = text.len();
    if n == 0 {
        return None;
    }
    let negative: bool = text[0] == '-';
    let start: usize = if text[0] == '+' || negative {
        1
    } else {
        0
    };
    assert(text@.subrange(1, n as int) =~= text@.drop_first());
    assert(text@.subrange(0, n as int) =~= text@);
    let digits = slice_subrange(text, start, n);
    if negative {
        if min > 0 {
            return None;
        }
        let limit: u128 = if min == i128::MIN {
            0x8000_0000_0000_0000_0000_0000_0000_0000
        } else {
            (-min) as u128
        };
        match parse_magnitude(digits, limit) {
            None => None,
            Some(m) => {
                let v: i128 = if m == 0x8000_0000_0000_0000_0000_0000_0000_0000 {
                    i128::MIN
                } else {
                    -(m as i128)
                };
                if v > max {
                    None
                } else {
                    Some(v)
                }
            },
        }
    } else {
        if max < 0 {
            return None;
        }
        match parse_magnitude(digits, max as u128) {
            None => None,
            Some(m) => {
                let v: i128 = m as i128;
                if v < min {
                    None
                } else {
                    Some(v)
                }
            },
        }
    }
}

} // verus!
