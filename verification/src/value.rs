//! The types that a token can be read as.

use crate::number::{integer_within, parse_signed, parse_unsigned};
use vstd::prelude::*;

verus! {

/// A type whose values can be written as one token of text.
pub trait FromToken: Sized + DeepView {
    /// The value that `text` writes, if it writes one.
    spec fn decode(text: Seq<char>) -> Option<Self::V>;

    /// Reads `text` as a value of this type.
    fn from_token(text: &[char]) -> (r: Option<Self>)
        ensures
            r is Some <==> Self::decode(text@) is Some,
            r is Some ==> Self::decode(text@) == Some(r.unwrap().deep_view()),
    ;
}

/// An optional sign and decimal digits that write a number in the range of
/// `i8`.
impl FromToken for i8 {
    open spec fn decode(text: Seq<char>) -> Option<i8> {
        match integer_within(text, true, i8::MIN as int, i8::MAX as int) {
            Some(v) => Some(v as i8),
            None => None,
        }
    }

    fn from_token(text: &[char]) -> (r: Option<i8>) {
        match parse_signed(text, i8::MIN as i128, i8::MAX as i128) {
            Some(v) => Some(v as i8),
            None => None,
        }
    }
}

/// An optional sign and decimal digits that write a number in the range of
/// `i16`.
impl FromToken for i16 {
    open spec fn decode(text: Seq<char>) -> Option<i16> {
        match integer_within(text, true, i16::MIN as int, i16::MAX as int) {
            Some(v) => Some(v as i16),
            None => None,
        }
    }

    fn from_token(text: &[char]) -> (r: Option<i16>) {
        match parse_signed(text, i16::MIN as i128, i16::MAX as i128) {
            Some(v) => Some(v as i16),
            None => None,
        }
    }
}

/// An optional sign and decimal digits that write a number in the range of
/// `i32`.
impl FromToken for i32 {
    open spec fn decode(text: Seq<char>) -> Option<i32> {
        match integer_within(text, true, i32::MIN as int, i32::MAX as int) {
            Some(v) => Some(v as i32),
            None => None,
        }
    }

    fn from_token(text: &[char]) -> (r: Option<i32>) {
        match parse_signed(text, i32::MIN as i128, i32::MAX as i128) {
            Some(v) => Some(v as i32),
            None => None,
        }
    }
}

/// An optional sign and decimal digits that write a number in the range of
/// `i64`.
impl FromToken for i64 {
    open spec fn decode(text: Seq<char>) -> Option<i64> {
        match integer_within(text, true, i64::MIN as int, i64::MAX as int) {
            Some(v) => Some(v as i64),
            None => None,
        }
    }

    fn from_token(text: &[char]) -> (r: Option<i64>) {
        match parse_signed(text, i64::MIN as i128, i64::MAX as i128) {
            Some(v) => Some(v as i64),
            None => None,
        }
    }
}

/// An optional sign and decimal digits that write a number in the range of
/// `i128`.
impl FromToken for i128 {
    open spec fn decode(text: Seq<char>) -> Option<i128> {
        match integer_within(text, true, i128::MIN as int, i128::MAX as int) {
            Some(v) => Some(v as i128),
            None => None,
        }
    }

    fn from_token(text: &[char]) -> (r: Option<i128>) {
        match parse_signed(text, i128::MIN as i128, i128::MAX as i128) {
            Some(v) => Some(v as i128),
            None => None,
        }
    }
}

/// An optional sign and decimal digits that write a number in the range of
/// `isize`.
impl FromToken for isize {
    open spec fn decode(text: Seq<char>) -> Option<isize> {
        match integer_within(text, true, isize::MIN as int, isize::MAX as int) {
            Some(v) => Some(v as isize),
            None => None,
        }
    }

    fn from_token(text: &[char]) -> (r: Option<isize>) {
        match parse_signed(text, isize::MIN as i128, isize::MAX as i128) {
            Some(v) => Some(v as isize),
            None => None,
        }
    }
}

/// An optional `+` and decimal digits that write a number in the range of
/// `u8`.
impl FromToken for u8 {
    open spec fn decode(text: Seq<char>) -> Option<u8> {
        match integer_within(text, false, 0, u8::MAX as int) {
            Some(v) => Some(v as u8),
            None => None,
        }
    }

    fn from_token(text: &[char]) -> (r: Option<u8>) {
        match parse_unsigned(text, u8::MAX as u128) {
            Some(v) => Some(v as u8),
            None => None,
        }
    }
}

/// An optional `+` and decimal digits that write a number in the range of
/// `u16`.
impl FromToken for u16 {
    open spec fn decode(text: Seq<char>) -> Option<u16> {
        match integer_within(text, false, 0, u16::MAX as int) {
            Some(v) => Some(v as u16),
            None => None,
        }
    }

    fn from_token(text: &[char]) -> (r: Option<u16>) {
        match parse_unsigned(text, u16::MAX as u128) {
            Some(v) => Some(v as u16),
            None => None,
        }
    }
}

/// An optional `+` and decimal digits that write a number in the range of
/// `u32`.
impl FromToken for u32 {
    open spec fn decode(text: Seq<char>) -> Option<u32> {
        match integer_within(text, false, 0, u32::MAX as int) {
            Some(v) => Some(v as u32),
            None => None,
        }
    }

    fn from_token(text: &[char]) -> (r: Option<u32>) {
        match parse_unsigned(text, u32::MAX as u128) {
            Some(v) => Some(v as u32),
            None => None,
        }
    }
}

/// An optional `+` and decimal digits that write a number in the range of
/// `u64`.
impl FromToken for u64 {
    open spec fn decode(text: Seq<char>) -> Option<u64> {
        match integer_within(text, false, 0, u64::MAX as int) {
            Some(v) => Some(v as u64),
            None => None,
        }
    }

    fn from_token(text: &[char]) -> (r: Option<u64>) {
        match parse_unsigned(text, u64::MAX as u128) {
            Some(v) => Some(v as u64),
            None => None,
        }
    }
}

/// An optional `+` and decimal digits that write a number in the range of
/// `u128`.
impl FromToken for u128 {
    open spec fn decode(text: Seq<char>) -> Option<u128> {
        match integer_within(text, false, 0, u128::MAX as int) {
            Some(v) => Some(v as u128),
            None => None,
        }
    }

    fn from_token(text: &[char]) -> (r: Option<u128>) {
        match parse_unsigned(text, u128::MAX as u128) {
            Some(v) => Some(v as u128),
            None => None,
        }
    }
}

/// An optional `+` and decimal digits that write a number in the range of
/// `usize`.
impl FromToken for usize {
    open spec fn decode(text: Seq<char>) -> Option<usize> {
        match integer_within(text, false, 0, usize::MAX as int) {
            Some(v) => Some(v as usize),
            None => None,
        }
    }

    fn from_token(text: &[char]) -> (r: Option<usize>) {
        match parse_unsigned(text, usize::MAX as u128) {
            Some(v) => Some(v as usize),
            None => None,
        }
    }
}

/// Exactly one character.
impl FromToken for char {
    open spec fn decode(text: Seq<char>) -> Option<char> {
        if text.len() == 1 {
            Some(text[0])
        } else {
            None
        }
    }

    fn from_token(text: &[char]) -> (r: Option<char>) {
        if text.len() == 1 {
            Some(text[0])
        } else {
            None
        }
    }
}

/// `String::push` appends the character it is given to the end of the string
/// and leaves what the string held before in place.
pub assume_specification[ String::push ](s: &mut String, ch: char)
    ensures
        final(s)@ == old(s)@.push(ch),
;

/// Any text, taken as it stands.
impl FromToken for String {
    open spec fn decode(text: Seq<char>) -> Option<Seq<char>> {
        Some(text)
    }

    fn from_token(text: &[char]) -> (r: Option<String>) {
        let n: usize = text.len();
        let mut out: String = String::new();
        let mut k: usize = 0;
        while k < n
            invariant
                k <= n == text@.len(),
                out@ == text@.take(k as int),
            decreases n - k,
        {
            out.push(text[k]);
            assert(text@.take(k + 1) =~= text@.take(k as int).push(text@[k as int]));
            k += 1;
        }
        assert(text@.take(n as int) =~= text@);
        Some(out)
    }
}

} // verus!
