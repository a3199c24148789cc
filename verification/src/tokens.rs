//! Cutting a line into tokens: trimming, white-space runs, single-character
//! delimiters.

use crate::chars::{is_space, is_whitespace};
use vstd::prelude::*;
use vstd::slice::slice_subrange;

verus! {

/// `s` without its leading white space.
pub open spec fn trim_start(s: Seq<char>) -> Seq<char>
    decreases s.len(),
{
    if s.len() > 0 && is_space(s.first()) {
        trim_start(s.drop_first())
    } else {
        s
    }
}

/// `s` without its trailing white space.
pub open spec fn trim_end(s: Seq<char>) -> Seq<char>
    decreases s.len(),
{
    if s.len() > 0 && is_space(s.last()) {
        trim_end(s.drop_last())
    } else {
        s
    }
}

/// `s` without leading and trailing white space.
pub open spec fn trimmed(s: Seq<char>) -> Seq<char> {
    trim_end(trim_start(s))
}

/// The first position at or after `i` that holds white space, or the length
/// of `s` where there is none.
pub open spec fn word_end(s: Seq<char>, i: int) -> int
    decreases s.len() - i,
{
    if 0 <= i < s.len() && !is_space(s[i]) {
        word_end(s, i + 1)
    } else {
        i
    }
}

/// The maximal white-space-free runs of `s` that start at or after `i`, in
/// order.
pub open spec fn words_from(s: Seq<char>, i: int) -> Seq<Seq<char>>
    decreases s.len() - i,
{
    if !(0 <= i < s.len()) {
        Seq::empty()
    } else if is_space(s[i]) {
        words_from(s, i + 1)
    } else {
        proof {
            lemma_word_end_bounds(s, i);
        }
        seq![s.subrange(i, word_end(s, i))] + words_from(s, word_end(s, i))
    }
}

/// The tokens of `s` under white-space splitting: its maximal runs of
/// characters that are not white space.
pub open spec fn words(s: Seq<char>) -> Seq<Seq<char>> {
    words_from(s, 0)
}

/// The first position at or after `i` that holds `delim`, or the length of
/// `s` where there is none.
pub open spec fn field_end(s: Seq<char>, delim: char, i: int) -> int
    decreases s.len() - i,
{
    if 0 <= i < s.len() && s[i] != delim {
        field_end(s, delim, i + 1)
    } else {
        i
    }
}

/// The pieces of `s` from position `i` on that lie between occurrences of
/// `delim`: one more piece than there are occurrences, empty pieces included.
pub open spec fn fields_from(s: Seq<char>, delim: char, i: int) -> Seq<Seq<char>>
    decreases s.len() - i,
{
    let e = field_end(s, delim, i);
    if 0 <= i <= e < s.len() {
        seq![s.subrange(i, e)] + fields_from(s, delim, e + 1)
    } else {
        seq![s.subrange(i, e)]
    }
}

/// The tokens of `s` under splitting at every `delim`. An empty `s` has no
/// tokens; any other has one more than it has delimiters.
pub open spec fn fields(s: Seq<char>, delim: char) -> Seq<Seq<char>> {
    if s.len() == 0 {
        Seq::empty()
    } else {
        fields_from(s, delim, 0)
    }
}

/// The character sequences that a vector of slices stands for.
pub open spec fn texts(tokens: Seq<&[char]>) -> Seq<Seq<char>> {
    Seq::new(tokens.len(), |k: int| tokens[k]@)
}

/// `word_end` stays inside `s`, moves past a character that is not white
/// space, and everything it passes over is not white space.
pub proof fn lemma_word_end_bounds(s: Seq<char>, i: int)
    requires
        0 <= i <= s.len(),
    ensures
        i <= word_end(s, i) <= s.len(),
        i < s.len() && !is_space(s[i]) ==> i < word_end(s, i),
        forall|k: int| i <= k < word_end(s, i) ==> !is_space(#[trigger] s[k]),
        word_end(s, i) < s.len() ==> is_space(s[word_end(s, i)]),
    decreases s.len() - i,
{
    if i < s.len() && !is_space(s[i]) {
        lemma_word_end_bounds(s, i + 1);
    }
}

/// `field_end` stays inside `s`, passes over no `delim`, and stops at one
/// unless it reaches the end.
pub proof fn lemma_field_end_bounds(s: Seq<char>, delim: char, i: int)
    requires
        0 <= i <= s.len(),
    ensures
        i <= field_end(s, delim, i) <= s.len(),
        forall|k: int| i <= k < field_end(s, delim, i) ==> #[trigger] s[k] != delim,
        field_end(s, delim, i) < s.len() ==> s[field_end(s, delim, i)] == delim,
    decreases s.len() - i,
{
    if i < s.len() && s[i] != delim {
        lemma_field_end_bounds(s, delim, i + 1);
    }
}

/// Every character of `s` is white space.
pub open spec fn is_blank(s: Seq<char>) -> bool {
    forall|k: int| 0 <= k < s.len() ==> is_space(#[trigger] s[k])
}

/// `s` is not empty and holds no white space.
pub open spec fn is_word(s: Seq<char>) -> bool {
    s.len() > 0 && forall|k: int| 0 <= k < s.len() ==> !is_space(#[trigger] s[k])
}

/// A run without white space that starts at `i` ends at `j` where the
/// string ends there or white space follows.
pub proof fn lemma_word_end_is(s: Seq<char>, i: int, j: int)
    requires
        0 <= i <= j <= s.len(),
        forall|k: int| i <= k < j ==> !is_space(#[trigger] s[k]),
        j == s.len() || is_space(s[j]),
    ensures
        word_end(s, i) == j,
    decreases j - i,
{
    if i < j {
        lemma_word_end_is(s, i + 1, j);
    }
}

/// White space before a position holds no word.
pub proof fn lemma_words_skip_blank(s: Seq<char>, i: int, j: int)
    requires
        0 <= i <= j <= s.len(),
        forall|k: int| i <= k < j ==> is_space(#[trigger] s[k]),
    ensures
        words_from(s, i) == words_from(s, j),
    decreases j - i,
{
    if i < j {
        lemma_words_skip_blank(s, i + 1, j);
    }
}

/// What stands before a position has no part in the words from it on.
pub proof fn lemma_words_shift(a: Seq<char>, b: Seq<char>, i: int)
    requires
        0 <= i <= b.len(),
    ensures
        words_from(a + b, a.len() + i) == words_from(b, i),
    decreases b.len() - i,
{
    let s = a + b;
    if i < b.len() {
        assert(s[a.len() + i] == b[i]);
        if is_space(b[i]) {
            lemma_words_shift(a, b, i + 1);
        } else {
            lemma_word_end_bounds(b, i);
            let e = word_end(b, i);
            assert forall|k: int| a.len() + i <= k < a.len() + e implies !is_space(
                #[trigger] s[k],
            ) by {
                assert(s[k] == b[k - a.len()]);
            }
            if e < b.len() {
                assert(s[a.len() + e] == b[e]);
            }
            lemma_word_end_is(s, a.len() + i, a.len() + e);
            lemma_words_shift(a, b, e);
            assert(s.subrange(a.len() + i, a.len() + e) =~= b.subrange(i, e));
        }
    }
}

/// White space put behind a string adds no word to it.
pub proof fn lemma_words_push_space(s: Seq<char>, c: char, i: int)
    requires
        0 <= i <= s.len(),
        is_space(c),
    ensures
        words_from(s.push(c), i) == words_from(s, i),
    decreases s.len() - i,
{
    let t = s.push(c);
    if i < s.len() {
        assert(t[i] == s[i]);
        if is_space(s[i]) {
            lemma_words_push_space(s, c, i + 1);
        } else {
            lemma_word_end_bounds(s, i);
            let e = word_end(s, i);
            assert forall|k: int| i <= k < e implies !is_space(#[trigger] t[k]) by {
                assert(t[k] == s[k]);
            }
            if e < s.len() {
                assert(t[e] == s[e]);
            }
            lemma_word_end_is(t, i, e);
            lemma_words_push_space(s, c, e);
            assert(t.subrange(i, e) =~= s.subrange(i, e));
        }
    } else {
        assert(words_from(t, i + 1) == Seq::<Seq<char>>::empty());
    }
}

/// Trimming a string changes none of its words.
pub proof fn lemma_words_of_trimmed(s: Seq<char>)
    ensures
        words(trimmed(s)) == words(s),
{
    lemma_words_of_trim_start(s);
    lemma_words_of_trim_end(trim_start(s));
}

/// Taking the leading white space away changes none of the words.
pub proof fn lemma_words_of_trim_start(s: Seq<char>)
    ensures
        words(trim_start(s)) == words(s),
    decreases s.len(),
{
    if s.len() > 0 && is_space(s.first()) {
        let head = seq![s.first()];
        assert(head + s.drop_first() =~= s);
        lemma_words_shift(head, s.drop_first(), 0);
        lemma_words_of_trim_start(s.drop_first());
    }
}

/// Taking the trailing white space away changes none of the words.
pub proof fn lemma_words_of_trim_end(s: Seq<char>)
    ensures
        words(trim_end(s)) == words(s),
    decreases s.len(),
{
    if s.len() > 0 && is_space(s.last()) {
        assert(s.drop_last().push(s.last()) =~= s);
        lemma_words_push_space(s.drop_last(), s.last(), 0);
        lemma_words_of_trim_end(s.drop_last());
    }
}

/// Strips leading and trailing white space from `line`.
pub fn trim<'a>(line: &'a [char]) -> (r: &'a [char])
    ensures
        r@ == trimmed(line@),
{
    let n: usize = line.len();
    let mut a: usize = 0;
    assert(line@.skip(0) =~= line@);
    while a < n && is_whitespace(line[a])
        invariant
            a <= n == line@.len(),
            trim_start(line@.skip(a as int)) == trim_start(line@),
        decreases n - a,
    {
        assert(line@.skip(a as int).drop_first() =~= line@.skip(a + 1));
        a += 1;
    }
    let mut b: usize = n;
    assert(line@.subrange(a as int, n as int) =~= line@.skip(a as int));
    assert(trim_start(line@.skip(a as int)) == line@.skip(a as int));
    while a < b && is_whitespace(line[b - 1])
        invariant
            a <= b <= n == line@.len(),
            trim_end(line@.subrange(a as int, b as int)) == trimmed(line@),
        decreases b - a,
    {
        assert(line@.subrange(a as int, b as int).drop_last() =~= line@.subrange(
            a as int,
            b - 1,
        ));
        b -= 1;
    }
    slice_subrange(line, a, b)
}

/// Cuts `line` into its maximal runs of characters that are not white space.
pub fn split_whitespace<'a>(line: &'a [char]) -> (r: Vec<&'a [char]>)
    ensures
        texts(r@) == words(line@),
{
    let n: usize = line.len();
    let mut out: Vec<&'a [char]> = Vec::new();
    let mut i: usize = 0;
    assert(texts(out@) + words_from(line@, 0) =~= words(line@));
    while i < n
        invariant
            i <= n == line@.len(),
            texts(out@) + words_from(line@, i as int) == words(line@),
        decreases n - i,
    {
        if is_whitespace(line[i]) {
            i += 1;
        } else {
            let start: usize = i;
            while i < n && !is_whitespace(line[i])
                invariant
                    start <= i <= n == line@.len(),
                    word_end(line@, i as int) == word_end(line@, start as int),
                decreases n - i,
            {
                i += 1;
            }
            let ghost before = texts(out@);
            let word = slice_subrange(line, start, i);
            out.push(word);
            assert(texts(out@) =~= before + seq![line@.subrange(start as int, i as int)]);
            assert(texts(out@) + words_from(line@, i as int) =~= before + words_from(
                line@,
                start as int,
            ));
        }
    }
    assert(texts(out@) + words_from(line@, n as int) =~= texts(out@));
    out
}

/// Cuts `line` at every occurrence of `delim`. Between two neighbouring
/// delimiters, before a leading and after a trailing one lies an empty
/// token; an empty `line` has no token at all.
pub fn split_on<'a>(line: &'a [char], delim: char) -> (r: Vec<&'a [char]>)
    ensures
        texts(r@) == fields(line@, delim),
{
    let n: usize = line.len();
    let mut out: Vec<&'a [char]> = Vec::new();
    if n == 0 {
        assert(texts(out@) =~= fields(line@, delim));
        return out;
    }
    let mut start: usize = 0;
    let mut done: bool = false;
    assert(texts(out@) + fields_from(line@, delim, 0) =~= fields(line@, delim));
    while !done
        invariant
            start <= n == line@.len(),
            n > 0,
            !done ==> texts(out@) + fields_from(line@, delim, start as int) == fields(
                line@,
                delim,
            ),
            done ==> texts(out@) == fields(line@, delim),
        decreases
                (if done {
                    0
                } else {
                    n - start + 1
                }),
    {
        let mut e: usize = start;
        while e < n && line[e] != delim
            invariant
                start <= e <= n == line@.len(),
                field_end(line@, delim, e as int) == field_end(line@, delim, start as int),
            decreases n - e,
        {
            e += 1;
        }
        let ghost before = texts(out@);
        let piece = slice_subrange(line, start, e);
        out.push(piece);
        assert(texts(out@) =~= before + seq![line@.subrange(start as int, e as int)]);
        if e < n {
            assert(texts(out@) + fields_from(line@, delim, e + 1) =~= before + fields_from(
                line@,
                delim,
                start as int,
            ));
            start = e + 1;
        } else {
            assert(texts(out@) =~= before + fields_from(line@, delim, start as int));
            done = true;
        }
    }
    out
}

} // verus!
