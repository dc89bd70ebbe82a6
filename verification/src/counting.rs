//! The counters: a one-pass scan of a text, and the four-way partitioned
//! variant.
//!
//! `count_into` is the unit of work both paths share: it scans one text span
//! and records every word in a count map.  `word_count` runs it once over
//! the whole text.  `mt_word_count` first computes three word-aligned cut
//! points with `split_points`, then counts the four partitions one by one
//! into a single map; because every cut lands on a delimiter or on the end
//! of the text, the result is proved equal to `word_count`'s.

use vstd::prelude::*;
use vstd::string::StrSliceExecFns;

use crate::count_map::CountMap;
use crate::delimiter::is_delimiter;
use crate::partition::split_points;
use crate::model::counts_bounded;
use crate::model::lemma_scan_words_len;
use crate::model::lemma_with_words_bounded;
use crate::model::lemma_with_words_concat;
use crate::model::lemma_words_concat;
use crate::model::scan_words;
use crate::model::with_word;
use crate::model::with_words;
use crate::model::word_counts;
use crate::model::words_of;

verus! {

/// The largest value a count can hold.
pub open spec fn max_count() -> int {
    0x7fff_ffff_ffff_ffff
}

/// Scans `text` and records each of its words in `map`, in order: afterward
/// `map` holds its old contents with every word of `text` recorded once per
/// occurrence.  The bound in the precondition leaves room for the new
/// occurrences in every count.
pub fn count_into(map: &mut CountMap, text: &str)
    requires
        old(map).wf(),
        text@.len() <= max_count(),
        counts_bounded(old(map)@, max_count() - text@.len()),
    ensures
        final(map).wf(),
        final(map)@ == with_words(old(map)@, words_of(text@)),
{
    let ghost m0 = map@;
    let ghost s = text@;
    let ghost l = text@.len() as int;
    let n = text.unicode_len();
    let mut i: usize = 0;
    let mut start: usize = 0;
    let ghost mut emitted: Seq<Seq<char>> = Seq::empty();
    proof {
        assert(emitted + scan_words(s, 0, 0) =~= words_of(s));
    }
    while i < n
        invariant
            map.wf(),
            n == s.len(),
            s == text@,
            l == s.len() as int,
            l <= max_count(),
            start <= i <= n,
            emitted.len() <= start as int,
            map@ == with_words(m0, emitted),
            counts_bounded(m0, max_count() - l),
            counts_bounded(map@, max_count() - l + emitted.len()),
            emitted + scan_words(s, i as int, start as int) == words_of(s),
        decreases n - i,
    {
        let c = text.get_char(i);
        if is_delimiter(c) {
            if start < i {
                let word = text.substring_char(start, i);
                proof {
                    // the pending run becomes a word; its count has room
                    assert(map@.contains_key(word@) ==> map@[word@] < max_count());
                }
                map.record(word);
                proof {
                    let w = s.subrange(start as int, i as int);
                    let e0 = emitted;
                    emitted = emitted.push(w);
                    assert(emitted.drop_last() =~= e0);
                    assert(emitted.last() == w);
                    assert(map@ == with_word(with_words(m0, e0), w));
                    assert(map@ == with_words(m0, emitted));
                    assert(emitted + scan_words(s, i as int + 1, i as int + 1) =~~= words_of(
                        s,
                    ));
                    assert forall|k: Seq<char>| #[trigger] map@.contains_key(k) implies 1
                        <= map@[k] <= max_count() - l + emitted.len() by {
                        if k != w {
                            assert(with_words(m0, e0).contains_key(k));
                        }
                    }
                }
            } else {
                proof {
                    assert(emitted + scan_words(s, i as int + 1, i as int + 1) =~~= words_of(
                        s,
                    ));
                }
            }
            start = i + 1;
        } else {
            proof {
                assert(emitted + scan_words(s, i as int + 1, start as int) =~~= words_of(s));
            }
        }
        i += 1;
    }
    if start < n {
        let word = text.substring_char(start, n);
        proof {
            assert(map@.contains_key(word@) ==> map@[word@] < max_count());
        }
        map.record(word);
        proof {
            let w = s.subrange(start as int, s.len() as int);
            let e0 = emitted;
            emitted = emitted.push(w);
            assert(emitted.drop_last() =~= e0);
            assert(emitted.last() == w);
            assert(map@ == with_word(with_words(m0, e0), w));
            assert(map@ == with_words(m0, emitted));
            assert(emitted =~~= words_of(s));
        }
    } else {
        proof {
            assert(emitted =~~= words_of(s));
        }
    }
}

/// Counts the words of `article` in one sequential pass.  The result maps
/// each distinct word of the text, punctuation and case kept verbatim, to
/// its number of occurrences; a text without words (empty, or delimiters
/// only) yields the empty map.
pub fn word_count(article: &str) -> (result: CountMap)
    requires
        article@.len() <= max_count(),
    ensures
        result.wf(),
        result@ == word_counts(article@),
{
    let mut map = CountMap::new();
    count_into(&mut map, article);
    map
}

/// Counts the words of `article` by four word-aligned partitions: the text
/// is cut at `split_points`, each partition is counted by its own unit of
/// work, and all counts land in one shared map.  The result is exactly the
/// mapping `word_count` returns — every occurrence is counted once, in
/// whichever partition owns it.
pub fn mt_word_count(article: &str) -> (result: CountMap)
    requires
        article@.len() <= max_count(),
    ensures
        result.wf(),
        result@ == word_counts(article@),
{
    let ghost s = article@;
    let n = article.unicode_len();
    let (q1, q2, q3) = split_points(article);
    let part1 = article.substring_char(0, q1);
    let part2 = article.substring_char(q1, q2);
    let part3 = article.substring_char(q2, q3);
    let part4 = article.substring_char(q3, n);
    let ghost a1 = s.subrange(0, q1 as int);
    let ghost a2 = s.subrange(q1 as int, q2 as int);
    let ghost a3 = s.subrange(q2 as int, q3 as int);
    let ghost a4 = s.subrange(q3 as int, s.len() as int);
    let ghost b2 = s.subrange(q1 as int, s.len() as int);
    let ghost b3 = s.subrange(q2 as int, s.len() as int);
    let ghost w1 = words_of(a1);
    let ghost w2 = words_of(a2);
    let ghost w3 = words_of(a3);
    let ghost w4 = words_of(a4);
    proof {
        // Each cut lands on a delimiter or on the end, so no word crosses
        // a partition boundary and the word sequence splits at the cuts.
        assert(s =~= a1 + b2);
        lemma_words_concat(a1, b2);
        assert(b2 =~= a2 + b3);
        lemma_words_concat(a2, b3);
        assert(b3 =~= a3 + a4);
        lemma_words_concat(a3, a4);
        assert(words_of(s) == w1 + (w2 + (w3 + w4)));
        lemma_scan_words_len(a1, 0, 0);
        lemma_scan_words_len(a2, 0, 0);
        lemma_scan_words_len(a3, 0, 0);
        lemma_scan_words_len(a4, 0, 0);
    }
    let mut map = CountMap::new();
    let ghost e = map@;
    count_into(&mut map, part1);
    proof {
        lemma_with_words_bounded(e, w1, 0);
        assert(counts_bounded(map@, max_count() - part2@.len()));
    }
    count_into(&mut map, part2);
    proof {
        lemma_with_words_bounded(with_words(e, w1), w2, w1.len() as int);
        assert(counts_bounded(map@, max_count() - part3@.len()));
    }
    count_into(&mut map, part3);
    proof {
        lemma_with_words_bounded(
            with_words(with_words(e, w1), w2),
            w3,
            w1.len() as int + w2.len() as int,
        );
        assert(counts_bounded(map@, max_count() - part4@.len()));
    }
    count_into(&mut map, part4);
    proof {
        // Folding the partitions one after the other folds the
        // concatenation of their word sequences: the whole text's words.
        lemma_with_words_concat(e, w1, w2 + (w3 + w4));
        lemma_with_words_concat(with_words(e, w1), w2, w3 + w4);
        lemma_with_words_concat(with_words(with_words(e, w1), w2), w3, w4);
        assert(map@ == with_words(e, words_of(s)));
    }
    map
}

} // verus!
