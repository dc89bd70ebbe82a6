//! Proved laws of the counting model.
//!
//! Both counters return exactly `word_counts` of their input (their
//! postconditions), so whatever holds of `word_counts` holds of both: the
//! laws here are stated once over the model and cover the two paths alike.

use vstd::prelude::*;

use crate::delimiter::is_delim;
use crate::model::scan_words;
use crate::model::with_word;
use crate::model::with_words;
use crate::model::word_counts;
use crate::model::words_of;

verus! {

/// An empty text has no words: both counters yield the empty map.
pub proof fn lemma_empty_input()
    ensures
        word_counts(Seq::<char>::empty()) == Map::<Seq<char>, int>::empty(),
{
}

proof fn lemma_scan_words_all_delims(s: Seq<char>, i: int)
    requires
        0 <= i <= s.len(),
        forall|j: int| i <= j < s.len() ==> is_delim(s[j]),
    ensures
        scan_words(s, i, i) == Seq::<Seq<char>>::empty(),
    decreases s.len() - i,
{
    if i < s.len() {
        lemma_scan_words_all_delims(s, i + 1);
    }
}

/// A text of delimiters only has no words: both counters yield the empty
/// map.
pub proof fn lemma_delimiters_only(s: Seq<char>)
    requires
        forall|j: int| 0 <= j < s.len() ==> is_delim(s[j]),
    ensures
        word_counts(s) == Map::<Seq<char>, int>::empty(),
{
    lemma_scan_words_all_delims(s, 0);
}

proof fn lemma_scan_words_runs(s: Seq<char>, i: int, start: int)
    requires
        0 <= start <= i <= s.len(),
        forall|j: int| start <= j < i ==> !is_delim(s[j]),
    ensures
        forall|k: int|
            0 <= k < scan_words(s, i, start).len() ==> #[trigger] scan_words(s, i, start)[k].len()
                > 0,
        forall|k: int, j: int|
            0 <= k < scan_words(s, i, start).len() && 0 <= j < scan_words(s, i, start)[k].len()
                ==> !is_delim(#[trigger] scan_words(s, i, start)[k][j]),
    decreases s.len() - i,
{
    let cur = scan_words(s, i, start);
    if i >= s.len() {
        if 0 <= start < s.len() {
            let w0 = s.subrange(start, s.len() as int);
            assert(forall|j: int| 0 <= j < w0.len() ==> w0[j] == s[start + j]);
            assert(cur[0] == w0);
        }
    } else if is_delim(s[i]) {
        lemma_scan_words_runs(s, i + 1, i + 1);
        let rest = scan_words(s, i + 1, i + 1);
        if start < i {
            let w0 = s.subrange(start, i);
            assert(cur == seq![w0] + rest);
            assert forall|k: int| 0 <= k < cur.len() implies #[trigger] cur[k].len() > 0 by {
                if k == 0 {
                    assert(cur[k] == w0);
                } else {
                    assert(cur[k] == rest[k - 1]);
                }
            }
            assert forall|k: int, j: int|
                0 <= k < cur.len() && 0 <= j < cur[k].len() implies !is_delim(
                #[trigger] cur[k][j],
            ) by {
                if k == 0 {
                    assert(cur[k] == w0);
                    assert(w0[j] == s[start + j]);
                } else {
                    assert(cur[k] == rest[k - 1]);
                    assert(cur[k][j] == rest[k - 1][j]);
                }
            }
        } else {
            assert(cur == rest);
            assert forall|k: int, j: int|
                0 <= k < cur.len() && 0 <= j < cur[k].len() implies !is_delim(
                #[trigger] cur[k][j],
            ) by {
                assert(cur[k][j] == rest[k][j]);
            }
        }
    } else {
        lemma_scan_words_runs(s, i + 1, start);
        let rest = scan_words(s, i + 1, start);
        assert(cur == rest);
        assert forall|k: int, j: int|
            0 <= k < cur.len() && 0 <= j < cur[k].len() implies !is_delim(
            #[trigger] cur[k][j],
        ) by {
            assert(cur[k][j] == rest[k][j]);
        }
    }
}

/// The sequential and the partitioned counter agree on every input: each
/// returns exactly `word_counts` of the text, so any two results of theirs
/// for one text are the same mapping — same key set, same counts.
pub proof fn lemma_counters_agree(
    s: Seq<char>,
    sequential: Map<Seq<char>, int>,
    partitioned: Map<Seq<char>, int>,
)
    requires
        sequential == word_counts(s),
        partitioned == word_counts(s),
    ensures
        sequential.dom() == partitioned.dom(),
        forall|w: Seq<char>| sequential.contains_key(w) ==> sequential[w] == partitioned[w],
{
}

/// A word never holds a delimiter and is never empty: boundaries fall
/// exactly on whitespace and newline characters, and any other character —
/// punctuation included — stays part of its word.
pub proof fn lemma_words_are_runs(s: Seq<char>)
    ensures
        forall|k: int| 0 <= k < words_of(s).len() ==> #[trigger] words_of(s)[k].len() > 0,
        forall|k: int, j: int|
            0 <= k < words_of(s).len() && 0 <= j < words_of(s)[k].len() ==> !is_delim(
                #[trigger] words_of(s)[k][j],
            ),
{
    lemma_scan_words_runs(s, 0, 0);
}

proof fn lemma_scan_words_no_delims(s: Seq<char>, i: int, start: int)
    requires
        0 <= start <= i <= s.len(),
        start < s.len(),
        forall|j: int| i <= j < s.len() ==> !is_delim(s[j]),
    ensures
        scan_words(s, i, start) == seq![s.subrange(start, s.len() as int)],
    decreases s.len() - i,
{
    if i < s.len() {
        lemma_scan_words_no_delims(s, i + 1, start);
    }
}

/// A non-empty text without a delimiter is one single word: both counters
/// yield a map with exactly one entry, the whole text with count 1.
pub proof fn lemma_single_word(s: Seq<char>)
    requires
        s.len() > 0,
        forall|j: int| 0 <= j < s.len() ==> !is_delim(s[j]),
    ensures
        word_counts(s) == Map::<Seq<char>, int>::empty().insert(s, 1),
{
    lemma_scan_words_no_delims(s, 0, 0);
    assert(s.subrange(0, s.len() as int) =~= s);
    assert(words_of(s) =~~= seq![s]);
    let ws = seq![s];
    assert(ws.drop_last() =~= Seq::<Seq<char>>::empty());
    assert(with_words(Map::<Seq<char>, int>::empty(), ws.drop_last()) == Map::<
        Seq<char>,
        int,
    >::empty());
    assert(with_words(Map::empty(), ws) == with_word(Map::empty(), s));
}

} // verus!
