//! What holds of every read.

use crate::chars::is_space;
use crate::error::ScanError;
use crate::input::{after_line, after_values, first_line, line_end, scan_value, scan_values};
use crate::line::{decoded, line_values};
use crate::tokens::{
    is_blank, is_word, lemma_field_end_bounds, lemma_word_end_is, lemma_words_of_trimmed,
    lemma_words_shift, lemma_words_skip_blank, trimmed, words, words_from,
};
use crate::value::FromToken;
use vstd::prelude::*;

verus! {

/// The line that holds `tokens` in order, with `gaps[0]` before the first,
/// `gaps[k]` between token `k - 1` and token `k`, and the last of `gaps`
/// behind the last token.
pub open spec fn spaced(tokens: Seq<Seq<char>>, gaps: Seq<Seq<char>>) -> Seq<char>
    recommends
        gaps.len() == tokens.len() + 1,
    decreases tokens.len(),
{
    if tokens.len() == 0 {
        gaps[0]
    } else {
        gaps[0] + tokens[0] + spaced(tokens.drop_first(), gaps.drop_first())
    }
}

/// `tokens` are words and `gaps` are white space that separates them: one
/// gap more than there are tokens, none of the inner gaps empty.
pub open spec fn separates(tokens: Seq<Seq<char>>, gaps: Seq<Seq<char>>) -> bool {
    &&& gaps.len() == tokens.len() + 1
    &&& forall|k: int| 0 <= k < tokens.len() ==> is_word(#[trigger] tokens[k])
    &&& forall|k: int| 0 <= k < gaps.len() ==> is_blank(#[trigger] gaps[k])
    &&& forall|k: int| 0 < k < tokens.len() ==> (#[trigger] gaps[k]).len() > 0
}

/// The text after `k` lines of `text`.
pub open spec fn skip_lines(text: Seq<char>, k: nat) -> Seq<char>
    decreases k,
{
    if k == 0 {
        text
    } else {
        skip_lines(after_line(text), (k - 1) as nat)
    }
}

/// A line made of words and white space between them has exactly those
/// words as its tokens.
pub proof fn lemma_words_of_spaced(tokens: Seq<Seq<char>>, gaps: Seq<Seq<char>>)
    requires
        separates(tokens, gaps),
    ensures
        words(spaced(tokens, gaps)) == tokens,
    decreases tokens.len(),
{
    let s = spaced(tokens, gaps);
    let gap = gaps[0];
    assert(is_blank(gap));
    if tokens.len() == 0 {
        lemma_words_skip_blank(s, 0, s.len() as int);
        assert(words(s) =~= tokens);
    } else {
        let word = tokens[0];
        let more_tokens = tokens.drop_first();
        let more_gaps = gaps.drop_first();
        let rest = spaced(more_tokens, more_gaps);
        assert(is_word(word));
        assert(separates(more_tokens, more_gaps)) by {
            assert forall|k: int| 0 <= k < more_tokens.len() implies is_word(
                #[trigger] more_tokens[k],
            ) by {
                assert(more_tokens[k] == tokens[k + 1]);
            }
            assert forall|k: int| 0 <= k < more_gaps.len() implies is_blank(
                #[trigger] more_gaps[k],
            ) by {
                assert(more_gaps[k] == gaps[k + 1]);
            }
            assert forall|k: int| 0 < k < more_tokens.len() implies (#[trigger] more_gaps[k]).len()
                > 0 by {
                assert(more_gaps[k] == gaps[k + 1]);
            }
        }
        lemma_words_of_spaced(more_tokens, more_gaps);
        // What follows the first word is the end of the line or white space.
        assert(rest.len() == 0 || is_space(rest[0])) by {
            let next = more_gaps[0];
            assert(next == gaps[1]);
            assert(is_blank(next));
            if more_tokens.len() == 0 {
                assert(rest == next);
            } else {
                assert(next.len() > 0);
                assert(rest == next + more_tokens[0] + spaced(
                    more_tokens.drop_first(),
                    more_gaps.drop_first(),
                ));
                assert(rest[0] == next[0]);
            }
        }
        let a = gap.len() as int;
        let b = a + word.len();
        assert(s == gap + word + rest);
        assert forall|k: int| 0 <= k < a implies is_space(#[trigger] s[k]) by {
            assert(s[k] == gap[k]);
        }
        assert forall|k: int| a <= k < b implies !is_space(#[trigger] s[k]) by {
            assert(s[k] == word[k - a]);
        }
        if b < s.len() {
            assert(s[b] == rest[0]);
        }
        lemma_words_skip_blank(s, 0, a);
        lemma_word_end_is(s, a, b);
        assert(s.subrange(a, b) =~= word);
        lemma_words_shift(gap + word, rest, 0);
        assert(words_from(s, a) == seq![word] + words_from(s, b));
        assert(seq![word] + more_tokens =~= tokens);
    }
}

/// A line without a line feed in it, followed by one line feed, is read
/// back as that line, and nothing is left behind it.
pub proof fn lemma_one_line(s: Seq<char>)
    requires
        !s.contains('\n'),
    ensures
        first_line(s.push('\n')) == s,
        after_line(s.push('\n')) == Seq::<char>::empty(),
{
    let text = s.push('\n');
    lemma_field_end_bounds(text, '\n', 0);
    let e = line_end(text);
    if e < s.len() {
        assert(text[e] == s[e]);
        assert(s.contains(s[e]));
    }
    if e > s.len() {
        assert(text[s.len() as int] == '\n');
    }
    assert(text.take(e) =~= s);
    assert(text.skip(e + 1) =~= Seq::<char>::empty());
}

/// Reading one value from an input that holds a single line gives what the
/// line's text writes: for every text that is not empty, is already
/// trimmed, holds no line feed and writes a `T`, a read from that text and
/// a line feed behind it gives the value that the text writes, and uses
/// the input up.
pub proof fn law_scan_gives_what_the_line_writes<T: FromToken>(s: Seq<char>)
    requires
        s.len() > 0,
        trimmed(s) == s,
        !s.contains('\n'),
        T::decode(s) is Some,
    ensures
        scan_value::<T>(s.push('\n')) == Ok::<T::V, ScanError>(T::decode(s).unwrap()),
        after_line(s.push('\n')).len() == 0,
{
    lemma_one_line(s);
}

/// Splitting a line at white space reads every token, in order: for a line
/// made of `k` words with white space between and around them, each of
/// which writes a `T`, the result is the `k` values that the words write
/// one by one.
pub proof fn law_split_reads_every_token<T: FromToken>(
    tokens: Seq<Seq<char>>,
    gaps: Seq<Seq<char>>,
)
    requires
        separates(tokens, gaps),
        forall|k: int| 0 <= k < tokens.len() ==> (#[trigger] T::decode(tokens[k])) is Some,
    ensures
        line_values::<T>(spaced(tokens, gaps)) == Ok::<Seq<T::V>, ScanError>(
            Seq::new(tokens.len(), |k: int| T::decode(tokens[k]).unwrap()),
        ),
{
    lemma_words_of_spaced(tokens, gaps);
    lemma_words_of_trimmed(spaced(tokens, gaps));
}

/// A line of nothing but white space splits into no values at all,
/// whatever the type asked for.
pub proof fn law_split_of_blank_line<T: FromToken>(line: Seq<char>)
    requires
        is_blank(line),
    ensures
        line_values::<T>(line) == Ok::<Seq<T::V>, ScanError>(Seq::empty()),
{
    lemma_words_of_trimmed(line);
    lemma_words_skip_blank(line, 0, line.len() as int);
    assert(words(line) =~= Seq::<Seq<char>>::empty());
    assert(decoded::<T>(words(trimmed(line)))->Ok_0 =~= Seq::<T::V>::empty());
}

/// Reading `n` lines is reading one line `n` times: the read succeeds
/// exactly when each of the first `n` lines gives a value, the result then
/// holds `n` values, the value at `k` is what a single read gives after `k`
/// lines, and what is left is the text after `n` lines.
pub proof fn law_scan_lines_is_repeated_scan<T: FromToken>(text: Seq<char>, n: nat)
    ensures
        scan_values::<T>(text, n) is Ok <==> forall|k: nat|
            k < n ==> (#[trigger] scan_value::<T>(skip_lines(text, k))) is Ok,
        scan_values::<T>(text, n) is Ok ==> scan_values::<T>(text, n)->Ok_0.len() == n,
        scan_values::<T>(text, n) is Ok ==> forall|k: nat|
            k < n ==> Ok::<T::V, ScanError>(#[trigger] scan_values::<T>(text, n)->Ok_0[k as int])
                == scan_value::<T>(skip_lines(text, k)),
        scan_values::<T>(text, n) is Ok ==> after_values::<T>(text, n) == skip_lines(text, n),
    decreases n,
{
    if n > 0 {
        let rest = after_line(text);
        let m = (n - 1) as nat;
        law_scan_lines_is_repeated_scan::<T>(rest, m);
        assert(skip_lines(text, 0) == text);
        assert forall|k: nat| 0 < k implies skip_lines(text, k) == skip_lines(
            rest,
            (k - 1) as nat,
        ) by {}
        if scan_values::<T>(text, n) is Ok {
            assert forall|k: nat| k < n implies (#[trigger] scan_value::<T>(
                skip_lines(text, k),
            )) is Ok by {
                if k > 0 {
                    assert(scan_value::<T>(skip_lines(rest, (k - 1) as nat)) is Ok);
                }
            }
            let got = scan_values::<T>(text, n)->Ok_0;
            let tail = scan_values::<T>(rest, m)->Ok_0;
            assert forall|k: nat| k < n implies Ok::<T::V, ScanError>(#[trigger] got[k as int])
                == scan_value::<T>(skip_lines(text, k)) by {
                if k > 0 {
                    assert(got[k as int] == tail[k - 1]);
                    assert(Ok::<T::V, ScanError>(tail[(k - 1) as nat as int]) == scan_value::<T>(
                        skip_lines(rest, (k - 1) as nat),
                    ));
                }
            }
        }
        if forall|k: nat| k < n ==> (#[trigger] scan_value::<T>(skip_lines(text, k))) is Ok {
            assert(scan_value::<T>(skip_lines(text, 0)) is Ok);
            assert forall|k: nat| k < m implies (#[trigger] scan_value::<T>(
                skip_lines(rest, k),
            )) is Ok by {
                assert(skip_lines(text, k + 1) == skip_lines(rest, k));
                assert(scan_value::<T>(skip_lines(text, k + 1)) is Ok);
            }
        }
    }
}

/// Reading no lines reads nothing: the result is empty and the input is as
/// it was.
pub proof fn law_scan_no_lines<T: FromToken>(text: Seq<char>)
    ensures
        scan_values::<T>(text, 0) == Ok::<Seq<T::V>, ScanError>(Seq::empty()),
        after_values::<T>(text, 0) == text,
{
}

} // verus!
