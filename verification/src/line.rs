//! Reading one line of text as a value, as a sequence of values or as a
//! tuple.

use crate::error::{outcome, ScanError};
use crate::tokens::{fields, split_on, split_whitespace, texts, trim, trimmed, words};
use crate::value::FromToken;
use vstd::prelude::*;

verus! {

/// The values that `tokens` write, in order; `ParseFailure` where one of them
/// writes none.
pub open spec fn decoded<T: FromToken>(tokens: Seq<Seq<char>>) -> Result<Seq<T::V>, ScanError> {
    if forall|k: int| 0 <= k < tokens.len() ==> (#[trigger] T::decode(tokens[k])) is Some {
        Ok(Seq::new(tokens.len(), |k: int| T::decode(tokens[k]).unwrap()))
    } else {
        Err(ScanError::ParseFailure)
    }
}

/// The value that a whole line writes once trimmed. A line that is empty
/// after trimming writes none.
pub open spec fn line_value<T: FromToken>(line: Seq<char>) -> Result<T::V, ScanError> {
    let text = trimmed(line);
    if text.len() == 0 {
        Err(ScanError::ParseFailure)
    } else {
        match T::decode(text) {
            Some(v) => Ok(v),
            None => Err(ScanError::ParseFailure),
        }
    }
}

/// The values of the white-space-separated tokens of a line.
pub open spec fn line_values<T: FromToken>(line: Seq<char>) -> Result<Seq<T::V>, ScanError> {
    decoded::<T>(words(trimmed(line)))
}

/// The values of the tokens of a line that `delim` separates.
pub open spec fn line_values_with<T: FromToken>(line: Seq<char>, delim: char) -> Result<
    Seq<T::V>,
    ScanError,
> {
    decoded::<T>(fields(trimmed(line), delim))
}

/// The value at position `k` of a line's tokens: `TokenCountMismatch` where
/// the line has no such token, `ParseFailure` where the token writes no `T`.
pub open spec fn token_at<T: FromToken>(tokens: Seq<Seq<char>>, k: int) -> Result<T::V, ScanError> {
    if !(0 <= k < tokens.len()) {
        Err(ScanError::TokenCountMismatch)
    } else {
        match T::decode(tokens[k]) {
            Some(v) => Ok(v),
            None => Err(ScanError::ParseFailure),
        }
    }
}

/// `TokenCountMismatch` where a line holds more than `k` tokens.
pub open spec fn no_more_than(tokens: Seq<Seq<char>>, k: int) -> Result<(), ScanError> {
    if tokens.len() > k {
        Err(ScanError::TokenCountMismatch)
    } else {
        Ok(())
    }
}

/// A line read as a tuple of one: its only token. The positions are taken
/// from the left, and the first that fails decides the error; a token too
/// many is noticed last.
pub open spec fn line_tuple1<A: FromToken>(line: Seq<char>) -> Result<(A::V,), ScanError> {
    let tokens = words(trimmed(line));
    match token_at::<A>(tokens, 0) {
        Err(e) => Err(e),
        Ok(a) => match no_more_than(tokens, 1) {
            Err(e) => Err(e),
            Ok(_) => Ok((a,)),
        },
    }
}

/// A line read as a pair: its two tokens, each as the type of its position.
/// The positions are taken from the left, and the first that fails decides
/// the error; a token too many is noticed last.
pub open spec fn line_tuple2<A: FromToken, B: FromToken>(line: Seq<char>) -> Result<
    (A::V, B::V),
    ScanError,
> {
    let tokens = words(trimmed(line));
    match token_at::<A>(tokens, 0) {
        Err(e) => Err(e),
        Ok(a) => match token_at::<B>(tokens, 1) {
            Err(e) => Err(e),
            Ok(b) => match no_more_than(tokens, 2) {
                Err(e) => Err(e),
                Ok(_) => Ok((a, b)),
            },
        },
    }
}

/// A line read as a triple: its three tokens, each as the type of its
/// position. The positions are taken from the left, and the first that fails
/// decides the error; a token too many is noticed last.
pub open spec fn line_tuple3<A: FromToken, B: FromToken, C: FromToken>(line: Seq<char>) -> Result<
    (A::V, B::V, C::V),
    ScanError,
> {
    let tokens = words(trimmed(line));
    match token_at::<A>(tokens, 0) {
        Err(e) => Err(e),
        Ok(a) => match token_at::<B>(tokens, 1) {
            Err(e) => Err(e),
            Ok(b) => match token_at::<C>(tokens, 2) {
                Err(e) => Err(e),
                Ok(c) => match no_more_than(tokens, 3) {
                    Err(e) => Err(e),
                    Ok(_) => Ok((a, b, c)),
                },
            },
        },
    }
}

/// A line read as a tuple of four: its four tokens, each as the type of its
/// position. The positions are taken from the left, and the first that fails
/// decides the error; a token too many is noticed last.
pub open spec fn line_tuple4<A: FromToken, B: FromToken, C: FromToken, D: FromToken>(
    line: Seq<char>,
) -> Result<(A::V, B::V, C::V, D::V), ScanError> {
    let tokens = words(trimmed(line));
    match token_at::<A>(tokens, 0) {
        Err(e) => Err(e),
        Ok(a) => match token_at::<B>(tokens, 1) {
            Err(e) => Err(e),
            Ok(b) => match token_at::<C>(tokens, 2) {
                Err(e) => Err(e),
                Ok(c) => match token_at::<D>(tokens, 3) {
                    Err(e) => Err(e),
                    Ok(d) => match no_more_than(tokens, 4) {
                        Err(e) => Err(e),
                        Ok(_) => Ok((a, b, c, d)),
                    },
                },
            },
        },
    }
}

/// Reads every token as a `T`, in order, and stops at the first that is
/// none.
pub fn parse_all<T: FromToken>(tokens: &Vec<&[char]>) -> (r: Result<Vec<T>, ScanError>)
    ensures
        outcome(r) == decoded::<T>(texts(tokens@)),
{
    let n: usize = tokens.len();
    let mut out: Vec<T> = Vec::new();
    let mut k: usize = 0;
    while k < n
        invariant
            k <= n == tokens@.len(),
            out@.len() == k,
            forall|j: int|
                0 <= j < k ==> T::decode(#[trigger] texts(tokens@)[j]) == Some(
                    out@[j].deep_view(),
                ),
        decreases n - k,
    {
        match T::from_token(tokens[k]) {
            None => {
                assert(T::decode(texts(tokens@)[k as int]) is None);
                return Err(ScanError::ParseFailure);
            },
            Some(v) => {
                out.push(v);
            },
        }
        k += 1;
    }
    assert(out.deep_view() =~= decoded::<T>(texts(tokens@))->Ok_0);
    Ok(out)
}

/// Reads the whole of `line`, trimmed, as one `T`.
pub fn parse_one<T: FromToken>(line: &[char]) -> (r: Result<T, ScanError>)
    ensures
        outcome(r) == line_value::<T>(line@),
{
    let text = trim(line);
    if text.len() == 0 {
        return Err(ScanError::ParseFailure);
    }
    match T::from_token(text) {
        Some(v) => Ok(v),
        None => Err(ScanError::ParseFailure),
    }
}

/// Reads each white-space-separated token of `line` as a `T`.
pub fn parse_split<T: FromToken>(line: &[char]) -> (r: Result<Vec<T>, ScanError>)
    ensures
        outcome(r) == line_values::<T>(line@),
{
    let tokens = split_whitespace(trim(line));
    parse_all(&tokens)
}

/// Reads each token of `line` between occurrences of `delim` as a `T`.
pub fn parse_split_with<T: FromToken>(line: &[char], delim: char) -> (r: Result<
    Vec<T>,
    ScanError,
>)
    ensures
        outcome(r) == line_values_with::<T>(line@, delim),
{
    let tokens = split_on(trim(line), delim);
    parse_all(&tokens)
}

/// Reads the token at position `k` as a `T`.
pub fn parse_at<T: FromToken>(tokens: &Vec<&[char]>, k: usize) -> (r: Result<T, ScanError>)
    ensures
        outcome(r) == token_at::<T>(texts(tokens@), k as int),
{
    if k >= tokens.len() {
        return Err(ScanError::TokenCountMismatch);
    }
    match T::from_token(tokens[k]) {
        Some(v) => Ok(v),
        None => Err(ScanError::ParseFailure),
    }
}

/// Checks that no token stands at position `k` or after it.
pub fn expect_end(tokens: &Vec<&[char]>, k: usize) -> (r: Result<(), ScanError>)
    ensures
        r == no_more_than(texts(tokens@), k as int),
{
    if tokens.len() > k {
        Err(ScanError::TokenCountMismatch)
    } else {
        Ok(())
    }
}

/// Reads `line` as a tuple of one: exactly one token, read as an `A`.
pub fn parse_tuple1<A: FromToken>(line: &[char]) -> (r: Result<(A,), ScanError>)
    ensures
        outcome(r) == line_tuple1::<A>(line@),
{
    let tokens = split_whitespace(trim(line));
    let a: A = match parse_at(&tokens, 0) {
        Ok(v) => v,
        Err(e) => return Err(e),
    };
    match expect_end(&tokens, 1) {
        Ok(_) => Ok((a,)),
        Err(e) => Err(e),
    }
}

/// Reads `line` as a pair: exactly two tokens, the first read as an `A`,
/// the second as a `B`.
pub fn parse_tuple2<A: FromToken, B: FromToken>(line: &[char]) -> (r: Result<(A, B), ScanError>)
    ensures
        outcome(r) == line_tuple2::<A, B>(line@),
{
    let tokens = split_whitespace(trim(line));
    let a: A = match parse_at(&tokens, 0) {
        Ok(v) => v,
        Err(e) => return Err(e),
    };
    let b: B = match parse_at(&tokens, 1) {
        Ok(v) => v,
        Err(e) => return Err(e),
    };
    match expect_end(&tokens, 2) {
        Ok(_) => Ok((a, b)),
        Err(e) => Err(e),
    }
}

/// Reads `line` as a triple: exactly three tokens, each read as the type of
/// its position.
pub fn parse_tuple3<A: FromToken, B: FromToken, C: FromToken>(line: &[char]) -> (r: Result<
    (A, B, C),
    ScanError,
>)
    ensures
        outcome(r) == line_tuple3::<A, B, C>(line@),
{
    let tokens = split_whitespace(trim(line));
    let a: A = match parse_at(&tokens, 0) {
        Ok(v) => v,
        Err(e) => return Err(e),
    };
    let b: B = match parse_at(&tokens, 1) {
        Ok(v) => v,
        Err(e) => return Err(e),
    };
    let c: C = match parse_at(&tokens, 2) {
        Ok(v) => v,
        Err(e) => return Err(e),
    };
    match expect_end(&tokens, 3) {
        Ok(_) => Ok((a, b, c)),
        Err(e) => Err(e),
    }
}

/// Reads `line` as a tuple of four: exactly four tokens, each read as the
/// type of its position.
pub fn parse_tuple4<A: FromToken, B: FromToken, C: FromToken, D: FromToken>(line: &[char]) -> (r:
    Result<(A, B, C, D), ScanError>)
    ensures
        outcome(r) == line_tuple4::<A, B, C, D>(line@),
{
    let tokens = split_whitespace(trim(line));
    let a: A = match parse_at(&tokens, 0) {
        Ok(v) => v,
        Err(e) => return Err(e),
    };
    let b: B = match parse_at(&tokens, 1) {
        Ok(v) => v,
        Err(e) => return Err(e),
    };
    let c: C = match parse_at(&tokens, 2) {
        Ok(v) => v,
        Err(e) => return Err(e),
    };
    let d: D = match parse_at(&tokens, 3) {
        Ok(v) => v,
        Err(e) => return Err(e),
    };
    match expect_end(&tokens, 4) {
        Ok(_) => Ok((a, b, c, d)),
        Err(e) => Err(e),
    }
}

} // verus!
