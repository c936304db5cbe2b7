//! The key/value mapping a descriptor file yields, with
//! last-occurrence-wins insertion.
use vstd::prelude::*;

use crate::text::str_eq;

verus! {

/// Fold of key/value pairs into a map; a later pair overwrites an earlier
/// one with the same key.
pub open spec fn pairs_map(ps: Seq<(String, String)>) -> Map<Seq<char>, Seq<char>>
    decreases ps.len(),
{
    if ps.len() == 0 {
        Map::empty()
    } else {
        pairs_map(ps.drop_last()).insert(ps.last().0@, ps.last().1@)
    }
}

/// The number of distinct keys among the pairs.
pub open spec fn num_distinct(ps: Seq<(String, String)>) -> nat
    decreases ps.len(),
{
    if ps.len() == 0 {
        0
    } else {
        num_distinct(ps.drop_last()) + if has_key(ps.drop_last(), ps.last().0@) {
            0nat
        } else {
            1nat
        }
    }
}

/// Some pair carries this key.
pub open spec fn has_key(ps: Seq<(String, String)>, k: Seq<char>) -> bool {
    exists|i: int| 0 <= i < ps.len() && ps[i].0@ == k
}

/// The fields of one descriptor: a mapping from key to value, insertions
/// kept in order with the last occurrence of a key winning. Viewed as a
/// `Map` from key characters to value characters.
pub struct Fields {
    pairs: Vec<(String, String)>,
}

impl View for Fields {
    type V = Map<Seq<char>, Seq<char>>;

    closed spec fn view(&self) -> Map<Seq<char>, Seq<char>> {
        pairs_map(self.pairs@)
    }
}

proof fn lemma_pairs_map_contains(ps: Seq<(String, String)>, k: Seq<char>)
    ensures
        pairs_map(ps).contains_key(k) <==> has_key(ps, k),
    decreases ps.len(),
{
    if ps.len() > 0 {
        lemma_pairs_map_contains(ps.drop_last(), k);
        if ps.last().0@ == k {
            assert(ps[ps.len() - 1].0@ == k);
        } else {
            assert(pairs_map(ps).contains_key(k) == pairs_map(ps.drop_last()).contains_key(k));
            if has_key(ps, k) {
                let i = choose|i: int| 0 <= i < ps.len() && ps[i].0@ == k;
                assert(i < ps.len() - 1);
                assert(ps.drop_last()[i].0@ == k);
            }
            if has_key(ps.drop_last(), k) {
                let i = choose|i: int| 0 <= i < ps.drop_last().len() && ps.drop_last()[i].0@ == k;
                assert(ps[i].0@ == k);
            }
        }
    }
}

proof fn lemma_pairs_map_last_value(ps: Seq<(String, String)>, i: int)
    requires
        0 <= i < ps.len(),
        forall|j: int| i < j < ps.len() ==> ps[j].0@ != ps[i].0@,
    ensures
        pairs_map(ps).contains_key(ps[i].0@),
        pairs_map(ps)[ps[i].0@] == ps[i].1@,
    decreases ps.len(),
{
    if i == ps.len() - 1 {
    } else {
        assert(ps.drop_last()[i] == ps[i]);
        lemma_pairs_map_last_value(ps.drop_last(), i);
        assert(ps.last().0@ != ps[i].0@);
    }
}

proof fn lemma_pairs_map_len(ps: Seq<(String, String)>)
    ensures
        pairs_map(ps).dom().finite(),
        pairs_map(ps).dom().len() == num_distinct(ps),
    decreases ps.len(),
{
    if ps.len() > 0 {
        lemma_pairs_map_len(ps.drop_last());
        lemma_pairs_map_contains(ps.drop_last(), ps.last().0@);
        if has_key(ps.drop_last(), ps.last().0@) {
            assert(pairs_map(ps).dom() =~= pairs_map(ps.drop_last()).dom());
        } else {
            assert(pairs_map(ps).dom() =~= pairs_map(ps.drop_last()).dom().insert(ps.last().0@));
        }
    } else {
        assert(pairs_map(ps).dom() =~= Set::<Seq<char>>::empty());
    }
}

impl Fields {
    /// An empty mapping.
    pub fn new() -> (r: Fields)
        ensures
            r@ == Map::<Seq<char>, Seq<char>>::empty(),
    {
        Fields { pairs: Vec::new() }
    }

    /// Inserts a field, overriding any earlier value of the same key.
    pub fn insert(&mut self, key: String, value: String)
        ensures
            final(self)@ == old(self)@.insert(key@, value@),
    {
        proof {
            assert(old(self).pairs@.push((key, value)).drop_last() =~= old(self).pairs@);
        }
        self.pairs.push((key, value));
    }

    /// Looks a key up, yielding a reference to the value of its last
    /// insertion.
    pub fn get<'a>(&'a self, key: &str) -> (r: Option<&'a String>)
        ensures
            match r {
                Some(v) => self@.contains_key(key@) && v@ == self@[key@],
                None => !self@.contains_key(key@),
            },
    {
        let n = self.pairs.len();
        let mut i: usize = n;
        while i > 0
            invariant
                n == self.pairs@.len(),
                i <= n,
                forall|j: int| i <= j < n ==> self.pairs@[j].0@ != key@,
            decreases i,
        {
            i = i - 1;
            if str_eq(self.pairs[i].0.as_str(), key) {
                proof {
                    lemma_pairs_map_last_value(self.pairs@, i as int);
                }
                return Some(&self.pairs[i].1);
            }
        }
        proof {
            lemma_pairs_map_contains(self.pairs@, key@);
        }
        None
    }

    /// Whether a key is present.
    pub fn contains_key(&self, key: &str) -> (r: bool)
        ensures
            r == self@.contains_key(key@),
    {
        self.get(key).is_some()
    }

    /// How many distinct keys the mapping holds.
    pub fn len(&self) -> (r: usize)
        ensures
            r == self@.dom().len(),
    {
        proof {
            lemma_pairs_map_len(self.pairs@);
            assert(self.pairs@.take(0) =~= Seq::<(String, String)>::empty());
        }
        let n = self.pairs.len();
        let mut count: usize = 0;
        let mut i: usize = 0;
        while i < n
            invariant
                n == self.pairs@.len(),
                i <= n,
                count <= i,
                count == num_distinct(self.pairs@.take(i as int)),
            decreases n - i,
        {
            let mut fresh = true;
            let mut j: usize = 0;
            while j < i
                invariant
                    n == self.pairs@.len(),
                    j <= i < n,
                    fresh == !(exists|m: int|
                        0 <= m < j && self.pairs@[m].0@ == self.pairs@[i as int].0@),
                decreases i - j,
            {
                if str_eq(self.pairs[j].0.as_str(), self.pairs[i].0.as_str()) {
                    fresh = false;
                }
                j = j + 1;
            }
            proof {
                let pre = self.pairs@.take(i as int);
                assert(self.pairs@.take(i + 1).drop_last() =~= pre);
                assert(self.pairs@.take(i + 1).last() == self.pairs@[i as int]);
                if has_key(pre, self.pairs@[i as int].0@) {
                    let m = choose|m: int|
                        0 <= m < pre.len() && pre[m].0@ == self.pairs@[i as int].0@;
                    assert(self.pairs@[m].0@ == self.pairs@[i as int].0@);
                    assert(!fresh);
                } else {
                    if !fresh {
                        let m = choose|m: int|
                            0 <= m < i && self.pairs@[m].0@ == self.pairs@[i as int].0@;
                        assert(pre[m].0@ == self.pairs@[i as int].0@);
                    }
                    assert(fresh);
                }
            }
            if fresh {
                count = count + 1;
            }
            i = i + 1;
        }
        proof {
            assert(self.pairs@.take(n as int) =~= self.pairs@);
        }
        count
    }
}

} // verus!
