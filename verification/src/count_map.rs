//! The count map: word to occurrence count.
//!
//! `CountMap` stores its entries as a vector of pairs with pairwise-distinct
//! keys and positive counts; its view is the mapping from each key, as a
//! character sequence, to its count.

use vstd::prelude::*;

use crate::model::with_word;

verus! {

/// The mapping held by a sequence of key/count pairs: later pairs win, so
/// with pairwise-distinct keys each pair gives its own entry.
spec fn pairs_to_map(ps: Seq<(String, i64)>) -> Map<Seq<char>, int>
    decreases ps.len(),
{
    if ps.len() == 0 {
        Map::empty()
    } else {
        pairs_to_map(ps.drop_last()).insert(ps.last().0@, ps.last().1 as int)
    }
}

/// No two pairs share a key.
spec fn distinct_keys(ps: Seq<(String, i64)>) -> bool {
    forall|i: int, j: int| 0 <= i < j < ps.len() ==> ps[i].0@ != ps[j].0@
}

proof fn lemma_pairs_to_map_contains(ps: Seq<(String, i64)>, k: Seq<char>)
    ensures
        pairs_to_map(ps).contains_key(k) <==> exists|i: int|
            0 <= i < ps.len() && ps[i].0@ == k,
    decreases ps.len(),
{
    if ps.len() > 0 {
        lemma_pairs_to_map_contains(ps.drop_last(), k);
        if ps.last().0@ == k {
            assert(ps[ps.len() - 1].0@ == k);
        } else if pairs_to_map(ps).contains_key(k) {
            let i = choose|i: int| 0 <= i < ps.drop_last().len() && ps.drop_last()[i].0@ == k;
            assert(ps[i].0@ == k);
        } else if exists|i: int| 0 <= i < ps.len() && ps[i].0@ == k {
            let i = choose|i: int| 0 <= i < ps.len() && ps[i].0@ == k;
            assert(ps.drop_last()[i].0@ == k);
        }
    }
}

proof fn lemma_pairs_to_map_index(ps: Seq<(String, i64)>, i: int)
    requires
        distinct_keys(ps),
        0 <= i < ps.len(),
    ensures
        pairs_to_map(ps).contains_key(ps[i].0@),
        pairs_to_map(ps)[ps[i].0@] == ps[i].1 as int,
    decreases ps.len(),
{
    if i == ps.len() - 1 {
    } else {
        lemma_pairs_to_map_index(ps.drop_last(), i);
        assert(ps.drop_last()[i] == ps[i]);
        assert(ps[i].0@ != ps.last().0@);
    }
}

proof fn lemma_pairs_to_map_update(ps: Seq<(String, i64)>, i: int, p: (String, i64))
    requires
        distinct_keys(ps),
        0 <= i < ps.len(),
        p.0@ == ps[i].0@,
    ensures
        pairs_to_map(ps.update(i, p)) == pairs_to_map(ps).insert(p.0@, p.1 as int),
    decreases ps.len(),
{
    let up = ps.update(i, p);
    if i == ps.len() - 1 {
        assert(up.drop_last() =~= ps.drop_last());
        assert(pairs_to_map(up) =~= pairs_to_map(ps).insert(p.0@, p.1 as int));
    } else {
        assert(up.drop_last() =~= ps.drop_last().update(i, p));
        assert(up.last() == ps.last());
        assert(ps.drop_last()[i] == ps[i]);
        lemma_pairs_to_map_update(ps.drop_last(), i, p);
        assert(ps[i].0@ != ps.last().0@);
        assert(pairs_to_map(up) =~= pairs_to_map(ps).insert(p.0@, p.1 as int));
    }
}

proof fn lemma_pairs_to_map_dom_len(ps: Seq<(String, i64)>)
    requires
        distinct_keys(ps),
    ensures
        pairs_to_map(ps).dom().finite(),
        pairs_to_map(ps).dom().len() == ps.len(),
    decreases ps.len(),
{
    if ps.len() > 0 {
        lemma_pairs_to_map_dom_len(ps.drop_last());
        lemma_pairs_to_map_contains(ps.drop_last(), ps.last().0@);
        assert(forall|i: int|
            0 <= i < ps.drop_last().len() ==> ps.drop_last()[i].0@ != ps.last().0@);
        assert(!pairs_to_map(ps.drop_last()).contains_key(ps.last().0@));
        assert(pairs_to_map(ps).dom() =~= pairs_to_map(ps.drop_last()).dom().insert(
            ps.last().0@,
        ));
    }
}

/// A mapping from word to occurrence count.
pub struct CountMap {
    pairs: Vec<(String, i64)>,
}

impl View for CountMap {
    type V = Map<Seq<char>, int>;

    closed spec fn view(&self) -> Map<Seq<char>, int> {
        pairs_to_map(self.pairs@)
    }
}

impl CountMap {
    /// Well-formed: keys are pairwise distinct and every count is positive.
    pub closed spec fn wf(&self) -> bool {
        &&& distinct_keys(self.pairs@)
        &&& forall|i: int| 0 <= i < self.pairs@.len() ==> 1 <= #[trigger] self.pairs@[i].1
    }

    /// The empty map.
    pub fn new() -> (r: CountMap)
        ensures
            r.wf(),
            r@ == Map::<Seq<char>, int>::empty(),
    {
        CountMap { pairs: Vec::new() }
    }

    /// The number of distinct words recorded.
    pub fn len(&self) -> (n: usize)
        requires
            self.wf(),
        ensures
            n == self@.dom().len(),
            self@.dom().finite(),
    {
        proof {
            lemma_pairs_to_map_dom_len(self.pairs@);
        }
        self.pairs.len()
    }

    /// The count recorded for `word`, or `None` if `word` was never
    /// recorded.
    pub fn get(&self, word: &str) -> (r: Option<i64>)
        requires
            self.wf(),
        ensures
            match r {
                Some(c) => self@.contains_key(word@) && c as int == self@[word@],
                None => !self@.contains_key(word@),
            },
    {
        let w: String = word.to_owned();
        let n = self.pairs.len();
        let mut j: usize = 0;
        while j < n
            invariant
                self.wf(),
                n == self.pairs@.len(),
                0 <= j <= n,
                w@ == word@,
                forall|t: int| 0 <= t < j ==> self.pairs@[t].0@ != word@,
            decreases n - j,
        {
            if self.pairs[j].0 == w {
                proof {
                    lemma_pairs_to_map_index(self.pairs@, j as int);
                }
                return Some(self.pairs[j].1);
            }
            j += 1;
        }
        proof {
            lemma_pairs_to_map_contains(self.pairs@, word@);
        }
        None
    }

    /// One occurrence of `word` recorded: its count starts at 1 on first
    /// sight and rises by 1 on each later sight.
    pub fn record(&mut self, word: &str)
        requires
            old(self).wf(),
            old(self)@.contains_key(word@) ==> old(self)@[word@] < 0x7fff_ffff_ffff_ffff,
        ensures
            final(self).wf(),
            final(self)@ == with_word(old(self)@, word@),
    {
        let w: String = word.to_owned();
        let n = self.pairs.len();
        let mut j: usize = 0;
        while j < n
            invariant
                self.wf(),
                self@ == old(self)@,
                self.pairs@ == old(self).pairs@,
                n == self.pairs@.len(),
                0 <= j <= n,
                w@ == word@,
                old(self)@.contains_key(word@) ==> old(self)@[word@] < 0x7fff_ffff_ffff_ffff,
                forall|t: int| 0 <= t < j ==> self.pairs@[t].0@ != word@,
            decreases n - j,
        {
            if self.pairs[j].0 == w {
                proof {
                    lemma_pairs_to_map_index(self.pairs@, j as int);
                }
                let pair = self.pairs.remove(j);
                let count = pair.1;
                self.pairs.insert(j, (pair.0, count + 1));
                proof {
                    assert(self.pairs@ =~= old(self).pairs@.update(
                        j as int,
                        (pair.0, (count + 1) as i64),
                    ));
                    lemma_pairs_to_map_update(
                        old(self).pairs@,
                        j as int,
                        (pair.0, (count + 1) as i64),
                    );
                    assert(self@ =~= with_word(old(self)@, word@));
                }
                return ;
            }
            j += 1;
        }
        proof {
            lemma_pairs_to_map_contains(self.pairs@, word@);
            assert(!self@.contains_key(word@));
        }
        self.pairs.push((w, 1));
        proof {
            assert(self.pairs@.drop_last() =~= old(self).pairs@);
            assert(self@ =~= with_word(old(self)@, word@));
        }
    }

    /// The entry at position `j` of the underlying store: a recorded word
    /// and its count.  Positions up to `len()` enumerate all entries.
    pub fn pair_at(&self, j: usize) -> (p: (String, i64))
        requires
            self.wf(),
            j < self@.dom().len(),
        ensures
            self@.contains_key(p.0@),
            p.1 as int == self@[p.0@],
    {
        proof {
            lemma_pairs_to_map_dom_len(self.pairs@);
            lemma_pairs_to_map_index(self.pairs@, j as int);
        }
        let pair = &self.pairs[j];
        (pair.0.clone(), pair.1)
    }
}

} // verus!
