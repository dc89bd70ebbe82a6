//! The mathematical model: the words of a text, and the count map they yield.
//!
//! `words_of` gives the sequence of words of a text, left to right: a word is
//! a maximal non-empty run of non-delimiter characters.  `word_counts` folds
//! those words into a mapping from word to occurrence count.  The executable
//! counters are specified against these functions, and the lemmas here let a
//! text be counted partition by partition: cutting the text at a delimiter
//! splits its word sequence, and folding a concatenation of word sequences is
//! folding them one after the other.

use vstd::prelude::*;

use crate::delimiter::is_delim;

verus! {

/// The words emitted by a left-to-right scan of `s` that has reached
/// position `i` with a pending run beginning at `start`.  At a delimiter the
/// pending run, if non-empty, is emitted; at the end of the text a trailing
/// non-empty run is emitted as the final word.
pub open spec fn scan_words(s: Seq<char>, i: int, start: int) -> Seq<Seq<char>>
    decreases s.len() - i,
{
    if i < 0 || i >= s.len() {
        if 0 <= start < s.len() {
            seq![s.subrange(start, s.len() as int)]
        } else {
            Seq::empty()
        }
    } else if is_delim(s[i]) {
        if start < i {
            seq![s.subrange(start, i)] + scan_words(s, i + 1, i + 1)
        } else {
            scan_words(s, i + 1, i + 1)
        }
    } else {
        scan_words(s, i + 1, start)
    }
}

/// The words of `s`: the maximal non-empty runs of non-delimiter characters,
/// in order of appearance.
pub open spec fn words_of(s: Seq<char>) -> Seq<Seq<char>> {
    scan_words(s, 0, 0)
}

/// One more occurrence of `w` recorded in `m`: the count starts at 1 on
/// first sight and rises by 1 on each later sight.
pub open spec fn with_word(m: Map<Seq<char>, int>, w: Seq<char>) -> Map<Seq<char>, int> {
    if m.contains_key(w) {
        m.insert(w, m[w] + 1)
    } else {
        m.insert(w, 1)
    }
}

/// All of `ws` recorded in `m`, in order.
pub open spec fn with_words(m: Map<Seq<char>, int>, ws: Seq<Seq<char>>) -> Map<Seq<char>, int>
    decreases ws.len(),
{
    if ws.len() == 0 {
        m
    } else {
        with_word(with_words(m, ws.drop_last()), ws.last())
    }
}

/// The occurrence counts of the words of `s`: the mapping both counters
/// return.
pub open spec fn word_counts(s: Seq<char>) -> Map<Seq<char>, int> {
    with_words(Map::empty(), words_of(s))
}

/// Every count in `m` lies between 1 and `b`.
pub open spec fn counts_bounded(m: Map<Seq<char>, int>, b: int) -> bool {
    forall|w: Seq<char>| #[trigger] m.contains_key(w) ==> 1 <= m[w] <= b
}

/// A scan emits at most one word per character of the pending run and the
/// rest of the text: never more words than characters at or after `start`.
pub proof fn lemma_scan_words_len(s: Seq<char>, i: int, start: int)
    requires
        0 <= start <= i <= s.len(),
    ensures
        scan_words(s, i, start).len() <= s.len() - start,
    decreases s.len() - i,
{
    if i >= s.len() {
    } else if is_delim(s[i]) {
        lemma_scan_words_len(s, i + 1, i + 1);
    } else {
        lemma_scan_words_len(s, i + 1, start);
    }
}

/// A scan does not look behind the pending run: the scan of `s` from `i`
/// equals the scan of the suffix of `s` at `c`, shifted, whenever `c` is at
/// or before the pending run.
proof fn lemma_scan_words_shift(s: Seq<char>, c: int, i: int, start: int)
    requires
        0 <= c <= start <= i <= s.len(),
    ensures
        scan_words(s, i, start) == scan_words(
            s.subrange(c, s.len() as int),
            i - c,
            start - c,
        ),
    decreases s.len() - i,
{
    let t = s.subrange(c, s.len() as int);
    if i >= s.len() {
        if 0 <= start < s.len() {
            assert(s.subrange(start, s.len() as int) =~= t.subrange(start - c, t.len() as int));
            assert(scan_words(s, i, start) =~~= scan_words(t, i - c, start - c));
        }
    } else if is_delim(s[i]) {
        lemma_scan_words_shift(s, c, i + 1, i + 1);
        if start < i {
            assert(s.subrange(start, i) =~= t.subrange(start - c, i - c));
            assert(scan_words(s, i, start) =~~= scan_words(t, i - c, start - c));
        }
    } else {
        lemma_scan_words_shift(s, c, i + 1, start);
    }
}

proof fn lemma_scan_words_concat(a: Seq<char>, b: Seq<char>, i: int, start: int)
    requires
        0 <= start <= i <= a.len(),
        b.len() == 0 || is_delim(b[0]),
    ensures
        scan_words(a + b, i, start) == scan_words(a, i, start) + scan_words(b, 0, 0),
    decreases a.len() - i,
{
    let s = a + b;
    if i == a.len() {
        if b.len() == 0 {
            assert(s =~= a);
            assert(scan_words(a, i, start) + scan_words(b, 0, 0) =~~= scan_words(a, i, start));
        } else {
            // s[i] is b[0], a delimiter: the pending run of `a`, if any, is
            // flushed here, and the rest of the scan is the scan of `b`.
            assert(s[i] == b[0]);
            lemma_scan_words_shift(s, a.len() as int, a.len() as int + 1, a.len() as int + 1);
            assert(s.subrange(a.len() as int, s.len() as int) =~= b);
            // words_of(b) begins by skipping the delimiter b[0].
            assert(scan_words(b, 0, 0) == scan_words(b, 1, 1));
            if start < i {
                assert(s.subrange(start, i) =~= a.subrange(start, a.len() as int));
                assert(scan_words(s, i, start) =~~= scan_words(a, i, start) + scan_words(
                    b,
                    0,
                    0,
                ));
            } else {
                assert(scan_words(s, i, start) =~~= scan_words(a, i, start) + scan_words(
                    b,
                    0,
                    0,
                ));
            }
        }
    } else {
        assert(s[i] == a[i]);
        if is_delim(a[i]) {
            lemma_scan_words_concat(a, b, i + 1, i + 1);
            if start < i {
                assert(s.subrange(start, i) =~= a.subrange(start, i));
                assert(scan_words(s, i, start) =~~= scan_words(a, i, start) + scan_words(
                    b,
                    0,
                    0,
                ));
            }
        } else {
            lemma_scan_words_concat(a, b, i + 1, start);
        }
    }
}

/// Cutting a text just before a delimiter splits its word sequence: no word
/// spans the cut, so the words of the whole are the words of the left part
/// followed by the words of the right part.
pub proof fn lemma_words_concat(a: Seq<char>, b: Seq<char>)
    requires
        b.len() == 0 || is_delim(b[0]),
    ensures
        words_of(a + b) == words_of(a) + words_of(b),
{
    lemma_scan_words_concat(a, b, 0, 0);
}

/// Recording a concatenation of word sequences is recording them one after
/// the other.
pub proof fn lemma_with_words_concat(m: Map<Seq<char>, int>, ws1: Seq<Seq<char>>, ws2: Seq<
    Seq<char>,
>)
    ensures
        with_words(m, ws1 + ws2) == with_words(with_words(m, ws1), ws2),
    decreases ws2.len(),
{
    if ws2.len() == 0 {
        assert(ws1 + ws2 =~= ws1);
    } else {
        assert((ws1 + ws2).drop_last() =~= ws1 + ws2.drop_last());
        assert((ws1 + ws2).last() == ws2.last());
        lemma_with_words_concat(m, ws1, ws2.drop_last());
    }
}

/// Recording `ws` raises no count by more than `ws.len()`.
pub proof fn lemma_with_words_bounded(m: Map<Seq<char>, int>, ws: Seq<Seq<char>>, b: int)
    requires
        counts_bounded(m, b),
        b >= 0,
    ensures
        counts_bounded(with_words(m, ws), b + ws.len()),
    decreases ws.len(),
{
    if ws.len() > 0 {
        lemma_with_words_bounded(m, ws.drop_last(), b);
    }
}

} // verus!
