//! The partitioner: three word-aligned cut points for the four-way count.
//!
//! The initial cut points sit at one quarter, one half and three quarters of
//! the text (the last clamped up to the half for very short texts, so the
//! cuts never cross).  Each is then advanced to the next delimiter, or to
//! the end of the text, so that no partition begins or ends inside a word.

use vstd::arithmetic::div_mod::lemma_div_is_ordered_by_denominator;
use vstd::arithmetic::div_mod::lemma_fundamental_div_mod;
use vstd::arithmetic::div_mod::lemma_mod_bound;
use vstd::prelude::*;
use vstd::string::StrSliceExecFns;

use crate::delimiter::is_delim;
use crate::delimiter::is_delimiter;

verus! {

/// The first position at or after `from` that carries a delimiter, or the
/// length of `s` if no delimiter follows.
pub open spec fn next_cut(s: Seq<char>, from: int) -> int
    decreases s.len() - from,
{
    if from < 0 || from >= s.len() {
        s.len() as int
    } else if is_delim(s[from]) {
        from
    } else {
        next_cut(s, from + 1)
    }
}

/// Where the first cut starts: one quarter of the length.
pub open spec fn quarter_point(len: int) -> int {
    len / 4
}

/// Where the second cut starts: half of the length.
pub open spec fn half_point(len: int) -> int {
    len / 2
}

/// Where the third cut starts: three quarters of the length, clamped up to
/// the half so the starts never decrease (they would only for lengths
/// under four).
pub open spec fn three_quarter_point(len: int) -> int {
    if 3 * (len / 4) < len / 2 {
        len / 2
    } else {
        3 * (len / 4)
    }
}

/// `next_cut` lies between `from` and the end, lands on a delimiter or on
/// the end, and skips no delimiter on the way.
pub proof fn lemma_next_cut_props(s: Seq<char>, from: int)
    requires
        0 <= from <= s.len(),
    ensures
        from <= next_cut(s, from) <= s.len(),
        next_cut(s, from) == s.len() || is_delim(s[next_cut(s, from)]),
        forall|j: int| from <= j < next_cut(s, from) ==> !is_delim(s[j]),
    decreases s.len() - from,
{
    if from < s.len() && !is_delim(s[from]) {
        lemma_next_cut_props(s, from + 1);
    }
}

/// A later start never yields an earlier cut.
pub proof fn lemma_next_cut_monotone(s: Seq<char>, a: int, b: int)
    requires
        0 <= a <= b <= s.len(),
    ensures
        next_cut(s, a) <= next_cut(s, b),
    decreases b - a,
{
    lemma_next_cut_props(s, b);
    if a < b {
        if a < s.len() && is_delim(s[a]) {
        } else {
            lemma_next_cut_monotone(s, a + 1, b);
        }
    }
}

/// The first delimiter-or-end position at or after `from`.
fn advance_to_delimiter(text: &str, from: usize) -> (q: usize)
    requires
        from <= text@.len(),
    ensures
        q as int == next_cut(text@, from as int),
{
    let n = text.unicode_len();
    let mut q = from;
    while q < n
        invariant
            from <= q <= n,
            n == text@.len(),
            next_cut(text@, from as int) == next_cut(text@, q as int),
        decreases n - q,
    {
        if is_delimiter(text.get_char(q)) {
            return q;
        }
        q += 1;
    }
    q
}

/// The three cut points of the four-way partition of `article`: the first
/// delimiter-or-end positions at or after the quarter, half and
/// three-quarter points.  Each lands on a delimiter or on the end of the
/// text, and they are non-decreasing and within bounds, so the four ranges
/// they bound cover the text exactly and never break inside a word.
pub fn split_points(article: &str) -> (r: (usize, usize, usize))
    ensures
        r.0 as int == next_cut(article@, quarter_point(article@.len() as int)),
        r.1 as int == next_cut(article@, half_point(article@.len() as int)),
        r.2 as int == next_cut(article@, three_quarter_point(article@.len() as int)),
        r.0 <= r.1 <= r.2 <= article@.len(),
        r.0 as int == article@.len() || is_delim(article@[r.0 as int]),
        r.1 as int == article@.len() || is_delim(article@[r.1 as int]),
        r.2 as int == article@.len() || is_delim(article@[r.2 as int]),
{
    let n = article.unicode_len();
    let p1 = n / 4;
    let p2 = n / 2;
    proof {
        lemma_fundamental_div_mod(n as int, 4);
        lemma_mod_bound(n as int, 4);
        assert(3 * ((n as int) / 4) <= n as int);
        lemma_div_is_ordered_by_denominator(n as int, 2, 4);
    }
    let mut p3 = (n / 4) * 3;
    if p3 < p2 {
        p3 = p2;
    }
    assert(p1 <= p2 <= p3 <= n);
    assert(p3 as int == three_quarter_point(article@.len() as int));
    let q1 = advance_to_delimiter(article, p1);
    let q2 = advance_to_delimiter(article, p2);
    let q3 = advance_to_delimiter(article, p3);
    proof {
        lemma_next_cut_props(article@, p1 as int);
        lemma_next_cut_props(article@, p2 as int);
        lemma_next_cut_props(article@, p3 as int);
        lemma_next_cut_monotone(article@, p1 as int, p2 as int);
        lemma_next_cut_monotone(article@, p2 as int, p3 as int);
    }
    (q1, q2, q3)
}

} // verus!
