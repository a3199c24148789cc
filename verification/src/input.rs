//! An input held in memory and read line by line.

use crate::error::{outcome, ScanError};
use crate::line::{
    line_tuple1, line_tuple2, line_tuple3, line_tuple4, line_value, line_values, line_values_with,
    parse_one, parse_split, parse_split_with, parse_tuple1, parse_tuple2, parse_tuple3,
    parse_tuple4,
};
use crate::tokens::field_end;
use crate::value::FromToken;
use vstd::prelude::*;
use vstd::slice::slice_subrange;

verus! {

/// Where the first line of `text` ends: at its first line feed, or at the
/// end of `text` where it holds none.
pub open spec fn line_end(text: Seq<char>) -> int {
    field_end(text, '\n', 0)
}

/// The first line of `text`, without the line feed that closes it.
pub open spec fn first_line(text: Seq<char>) -> Seq<char> {
    text.take(line_end(text))
}

/// What is left of `text` once its first line and the line feed that closes
/// it are taken away.
pub open spec fn after_line(text: Seq<char>) -> Seq<char> {
    if line_end(text) < text.len() {
        text.skip(line_end(text) + 1)
    } else {
        Seq::empty()
    }
}

/// What a read of one line gives: the first line, or `EndOfInput` where no
/// character is left.
pub open spec fn next_line(text: Seq<char>) -> Result<Seq<char>, ScanError> {
    if text.len() == 0 {
        Err(ScanError::EndOfInput)
    } else {
        Ok(first_line(text))
    }
}

/// A read of one line as a single `T`.
pub open spec fn scan_value<T: FromToken>(text: Seq<char>) -> Result<T::V, ScanError> {
    match next_line(text) {
        Ok(line) => line_value::<T>(line),
        Err(e) => Err(e),
    }
}

/// A read of `n` lines, each as a single `T`: the values in order, or the
/// error of the first line that gives none.
pub open spec fn scan_values<T: FromToken>(text: Seq<char>, n: nat) -> Result<Seq<T::V>, ScanError>
    decreases n,
{
    if n == 0 {
        Ok(Seq::empty())
    } else {
        match scan_value::<T>(text) {
            Err(e) => Err(e),
            Ok(v) => match scan_values::<T>(after_line(text), (n - 1) as nat) {
                Err(e) => Err(e),
                Ok(vs) => Ok(seq![v] + vs),
            },
        }
    }
}

/// What a read of `n` lines as `T` leaves unread: it stops behind the first
/// line that gives no value.
pub open spec fn after_values<T: FromToken>(text: Seq<char>, n: nat) -> Seq<char>
    decreases n,
{
    if n == 0 {
        text
    } else if scan_value::<T>(text) is Err {
        after_line(text)
    } else {
        after_values::<T>(after_line(text), (n - 1) as nat)
    }
}

/// The values of `tail` put behind `head`, where `tail` holds values.
spec fn behind<V>(head: Seq<V>, tail: Result<Seq<V>, ScanError>) -> Result<
    Seq<V>,
    ScanError,
> {
    match tail {
        Ok(vs) => Ok(head + vs),
        Err(e) => Err(e),
    }
}

/// Text that is consumed line by line from its start.
pub struct Input {
    buf: Vec<char>,
    pos: usize,
}

impl View for Input {
    type V = Seq<char>;

    /// The text that has not been read yet.
    closed spec fn view(&self) -> Seq<char> {
        self.buf@.skip(self.pos as int)
    }
}

impl Input {
    /// The read position never lies behind the end of the buffer.
    #[verifier::type_invariant]
    spec fn in_bounds(&self) -> bool {
        self.pos <= self.buf@.len()
    }

    /// An input that holds `text`, all of it unread.
    pub fn new(text: &str) -> (r: Input)
        ensures
            r@ == text@,
    {
        let mut buf: Vec<char> = Vec::new();
        for c in it: text.chars()
            invariant
                it.seq() == text@,
                buf@ == text@.take(it.index() as int),
        {
            buf.push(c);
            assert(text@.take(it.index() + 1) =~= text@.take(it.index() as int).push(c));
        }
        assert(text@.take(text@.len() as int) =~= text@);
        assert(buf@.skip(0) =~= buf@);
        Input { buf, pos: 0 }
    }

    /// An input that holds `chars`, all of them unread.
    pub fn from_chars(chars: Vec<char>) -> (r: Input)
        ensures
            r@ == chars@,
    {
        assert(chars@.skip(0) =~= chars@);
        Input { buf: chars, pos: 0 }
    }

    /// The number of characters that have not been read yet.
    pub fn remaining(&self) -> (r: usize)
        ensures
            r == self@.len(),
    {
        proof {
            use_type_invariant(self);
        }
        self.buf.len() - self.pos
    }

    /// Moves past the first unread line and gives the bounds of that line in
    /// the buffer; gives nothing where no character is left.
    fn take_line(&mut self) -> (r: Option<(usize, usize)>)
        ensures
            final(self).buf == old(self).buf,
            final(self)@ == after_line(old(self)@),
            old(self)@.len() == 0 ==> r is None,
            old(self)@.len() > 0 ==> r is Some && r.unwrap().0 <= r.unwrap().1 <= old(self).buf@.len()
                && old(self).buf@.subrange(r.unwrap().0 as int, r.unwrap().1 as int) == first_line(
                old(self)@,
            ),
    {
        proof {
            use_type_invariant(&*self);
        }
        let n: usize = self.buf.len();
        let start: usize = self.pos;
        let ghost text = self@;
        if start == n {
            assert(after_line(text) =~= text);
            return None;
        }
        let mut e: usize = start;
        while e < n && self.buf[e] != '\n'
            invariant
                start <= e <= n == self.buf@.len(),
                text == self.buf@.skip(start as int),
                field_end(text, '\n', e - start) == line_end(text),
            decreases n - e,
        {
            e += 1;
        }
        assert(line_end(text) == e - start);
        assert(self.buf@.subrange(start as int, e as int) =~= first_line(text));
        if e < n {
            self.pos = e + 1;
            assert(self.buf@.skip(e + 1) =~= after_line(text));
        } else {
            self.pos = n;
            assert(self.buf@.skip(n as int) =~= after_line(text));
        }
        Some((start, e))
    }
}

/// Reads one line and takes the whole of it, trimmed, as one `T`.
pub fn scan<T: FromToken>(input: &mut Input) -> (r: Result<T, ScanError>)
    ensures
        outcome(r) == scan_value::<T>(old(input)@),
        final(input)@ == after_line(old(input)@),
{
    match input.take_line() {
        None => Err(ScanError::EndOfInput),
        Some((a, b)) => parse_one(slice_subrange(input.buf.as_slice(), a, b)),
    }
}

/// Reads one line and takes each of its white-space-separated tokens as a
/// `T`.
pub fn scan_split<T: FromToken>(input: &mut Input) -> (r: Result<Vec<T>, ScanError>)
    ensures
        outcome(r) == (match next_line(old(input)@) {
            Ok(line) => line_values::<T>(line),
            Err(e) => Err(e),
        }),
        final(input)@ == after_line(old(input)@),
{
    match input.take_line() {
        None => Err(ScanError::EndOfInput),
        Some((a, b)) => parse_split(slice_subrange(input.buf.as_slice(), a, b)),
    }
}

/// Reads one line and takes each of its tokens between occurrences of `ch`
/// as a `T`.
pub fn scan_split_with<T: FromToken>(input: &mut Input, ch: char) -> (r: Result<Vec<T>, ScanError>)
    ensures
        outcome(r) == (match next_line(old(input)@) {
            Ok(line) => line_values_with::<T>(line, ch),
            Err(e) => Err(e),
        }),
        final(input)@ == after_line(old(input)@),
{
    match input.take_line() {
        None => Err(ScanError::EndOfInput),
        Some((a, b)) => parse_split_with(slice_subrange(input.buf.as_slice(), a, b), ch),
    }
}

/// Reads `n` lines, each as one `T`, and stops at the first that fails.
pub fn scan_lines<T: FromToken>(input: &mut Input, n: usize) -> (r: Result<Vec<T>, ScanError>)
    ensures
        outcome(r) == scan_values::<T>(old(input)@, n as nat),
        final(input)@ == after_values::<T>(old(input)@, n as nat),
{
    let mut out: Vec<T> = Vec::new();
    let mut k: usize = 0;
    let ghost text = input@;
    assert(out.deep_view() =~= Seq::<T::V>::empty());
    assert(behind(out.deep_view(), scan_values::<T>(input@, n as nat)) =~= scan_values::<T>(
        text,
        n as nat,
    )) by {
        match scan_values::<T>(text, n as nat) {
            Ok(vs) => {
                assert(Seq::<T::V>::empty() + vs =~= vs);
            },
            Err(_) => {},
        }
    }
    while k < n
        invariant
            k <= n,
            text == old(input)@,
            behind(out.deep_view(), scan_values::<T>(input@, (n - k) as nat)) == scan_values::<T>(
                text,
                n as nat,
            ),
            after_values::<T>(input@, (n - k) as nat) == after_values::<T>(text, n as nat),
        decreases n - k,
    {
        let ghost before = out.deep_view();
        let ghost here = input@;
        match scan::<T>(input) {
            Err(e) => {
                assert(scan_values::<T>(here, (n - k) as nat) == Err::<Seq<T::V>, ScanError>(e));
                assert(after_values::<T>(here, (n - k) as nat) == after_line(here));
                return Err(e);
            },
            Ok(v) => {
                out.push(v);
                proof {
                    assert(out.deep_view() =~= before + seq![v.deep_view()]);
                    match scan_values::<T>(after_line(here), (n - k - 1) as nat) {
                        Ok(vs) => {
                            assert(out.deep_view() + vs =~= before + (seq![v.deep_view()] + vs));
                        },
                        Err(_) => {},
                    }
                }
            },
        }
        k += 1;
    }
    proof {
        assert(out.deep_view() + Seq::<T::V>::empty() =~= out.deep_view());
    }
    Ok(out)
}

/// Reads one line as a tuple of one: exactly one token, read as an `A`.
pub fn scan_as_tuple1<A: FromToken>(input: &mut Input) -> (r: Result<(A,), ScanError>)
    ensures
        outcome(r) == (match next_line(old(input)@) {
            Ok(line) => line_tuple1::<A>(line),
            Err(e) => Err(e),
        }),
        final(input)@ == after_line(old(input)@),
{
    match input.take_line() {
        None => Err(ScanError::EndOfInput),
        Some((a, b)) => parse_tuple1(slice_subrange(input.buf.as_slice(), a, b)),
    }
}

/// Reads one line as a pair: exactly two tokens, the first read as an `A`,
/// the second as a `B`.
pub fn scan_as_tuple2<A: FromToken, B: FromToken>(input: &mut Input) -> (r: Result<
    (A, B),
    ScanError,
>)
    ensures
        outcome(r) == (match next_line(old(input)@) {
            Ok(line) => line_tuple2::<A, B>(line),
            Err(e) => Err(e),
        }),
        final(input)@ == after_line(old(input)@),
{
    match input.take_line() {
        None => Err(ScanError::EndOfInput),
        Some((a, b)) => parse_tuple2(slice_subrange(input.buf.as_slice(), a, b)),
    }
}

/// Reads one line as a triple: exactly three tokens, each read as the type
/// of its position.
pub fn scan_as_tuple3<A: FromToken, B: FromToken, C: FromToken>(input: &mut Input) -> (r: Result<
    (A, B, C),
    ScanError,
>)
    ensures
        outcome(r) == (match next_line(old(input)@) {
            Ok(line) => line_tuple3::<A, B, C>(line),
            Err(e) => Err(e),
        }),
        final(input)@ == after_line(old(input)@),
{
    match input.take_line() {
        None => Err(ScanError::EndOfInput),
        Some((a, b)) => parse_tuple3(slice_subrange(input.buf.as_slice(), a, b)),
    }
}

/// Reads one line as a tuple of four: exactly four tokens, each read as the
/// type of its position.
pub fn scan_as_tuple4<A: FromToken, B: FromToken, C: FromToken, D: FromToken>(
    input: &mut Input,
) -> (r: Result<(A, B, C, D), ScanError>)
    ensures
        outcome(r) == (match next_line(old(input)@) {
            Ok(line) => line_tuple4::<A, B, C, D>(line),
            Err(e) => Err(e),
        }),
        final(input)@ == after_line(old(input)@),
{
    match input.take_line() {
        None => Err(ScanError::EndOfInput),
        Some((a, b)) => parse_tuple4(slice_subrange(input.buf.as_slice(), a, b)),
    }
}

} // verus!
