//! Sorting by a character-sequence key: a verified insertion sort over
//! indices, breaking key ties by the original position so that the order is
//! total and the result stable.
use vstd::prelude::*;
use vstd::multiset::Multiset;
use vstd::relations::{sorted_by, total_ordering};
use vstd::seq_lib::{lemma_multiset_commutative, lemma_sorted_unique};

use crate::text::{
    chars_le, lemma_seq_le_antisym, lemma_seq_le_connected, lemma_seq_le_refl, lemma_seq_le_trans,
    seq_le,
};

verus! {

/// Order of positions `i` and `j` under their keys: by key, and by position
/// when the keys compare equal both ways.
pub open spec fn key_idx_le(keys: Seq<Seq<char>>, i: int, j: int) -> bool {
    seq_le(keys[i], keys[j]) && (seq_le(keys[j], keys[i]) ==> i <= j)
}

/// [`key_idx_le`] is a total order over positions.
pub proof fn lemma_key_idx_le_total_ordering(keys: Seq<Seq<char>>)
    ensures
        total_ordering(|i: int, j: int| key_idx_le(keys, i, j)),
{
    let leq = |i: int, j: int| key_idx_le(keys, i, j);
    assert forall|i: int| #[trigger] leq(i, i) by {
        lemma_seq_le_refl(keys[i]);
    }
    assert forall|i: int, j: int| #[trigger] leq(i, j) && #[trigger] leq(j, i) implies i == j by {
    }
    assert forall|i: int, j: int, k: int| #[trigger] leq(i, j) && #[trigger] leq(j, k)
        implies leq(i, k) by {
        lemma_seq_le_trans(keys[i], keys[j], keys[k]);
        if seq_le(keys[k], keys[i]) {
            lemma_seq_le_trans(keys[j], keys[k], keys[i]);
            lemma_seq_le_trans(keys[k], keys[i], keys[j]);
            lemma_seq_le_antisym(keys[i], keys[j]);
            lemma_seq_le_antisym(keys[j], keys[k]);
        }
    }
    assert forall|i: int, j: int| #[trigger] leq(i, j) || #[trigger] leq(j, i) by {
        lemma_seq_le_connected(keys[i], keys[j]);
    }
}

/// The canonical ordering of positions `0..keys.len()` under
/// [`key_idx_le`].
pub open spec fn sort_perm(keys: Seq<Seq<char>>) -> Seq<int> {
    Seq::new(keys.len(), |i: int| i).sort_by(|i: int, j: int| key_idx_le(keys, i, j))
}

/// A sequence's multiset grows by the inserted element.
pub proof fn lemma_insert_multiset<T>(s: Seq<T>, j: int, v: T)
    requires
        0 <= j <= s.len(),
    ensures
        s.insert(j, v).to_multiset() == s.to_multiset().insert(v),
{
    broadcast use vstd::seq_lib::group_to_multiset_ensures;

    let pre = s.take(j);
    let post = s.skip(j);
    assert(s.insert(j, v) =~= pre + seq![v] + post);
    assert(s =~= pre + post);
    lemma_multiset_commutative(pre + seq![v], post);
    lemma_multiset_commutative(pre, seq![v]);
    lemma_multiset_commutative(pre, post);
    assert(seq![v].to_multiset() =~= Multiset::<T>::empty().insert(v)) by {
        assert(seq![v].drop_first() =~= Seq::<T>::empty());
    }
    assert(s.insert(j, v).to_multiset() =~= s.to_multiset().insert(v));
}

/// Sorts the positions `0..keys.len()` by their keys, ties keeping the
/// original order: the result is exactly [`sort_perm`] of the keys.
pub fn sort_indices_by_key(keys: &Vec<Vec<char>>) -> (perm: Vec<usize>)
    ensures
        perm@.map_values(|u: usize| u as int) == sort_perm(keys.deep_view()),
        perm@.len() == keys@.len(),
        forall|m: int| 0 <= m < perm@.len() ==> (#[trigger] perm@[m]) < keys@.len(),
        perm@.no_duplicates(),
        forall|q: usize| q < keys@.len() ==> #[trigger] perm@.contains(q),
        forall|m1: int, m2: int|
            0 <= m1 < m2 < perm@.len() ==> key_idx_le(
                keys.deep_view(),
                #[trigger] perm@[m1] as int,
                #[trigger] perm@[m2] as int,
            ),
{
    let ghost dk = keys.deep_view();
    let ghost ident = Seq::new(dk.len(), |i: int| i);
    proof {
        broadcast use vstd::seq_lib::group_to_multiset_ensures;

        assert(ident.take(0) =~= Seq::<int>::empty());
        assert(Seq::<usize>::empty().map_values(|u: usize| u as int) =~= Seq::<int>::empty());
    }
    let n = keys.len();
    let mut perm: Vec<usize> = Vec::new();
    let mut i: usize = 0;
    while i < n
        invariant
            n == keys@.len() == dk.len(),
            i <= n,
            dk == keys.deep_view(),
            ident == Seq::new(dk.len(), |i: int| i),
            perm@.len() == i,
            forall|m: int| 0 <= m < perm@.len() ==> (#[trigger] perm@[m]) < i,
            forall|m1: int, m2: int|
                0 <= m1 < m2 < perm@.len() ==> #[trigger] key_idx_le(
                    dk,
                    perm@[m1] as int,
                    perm@[m2] as int,
                ),
            perm@.map_values(|u: usize| u as int).to_multiset() == ident.take(
                i as int,
            ).to_multiset(),
        decreases n - i,
    {
        let ghost old_perm = perm@;
        let ghost pm = perm@.map_values(|u: usize| u as int);
        // find the insertion point: the first held position that does not
        // come before the new one
        let mut j: usize = 0;
        let mut found = false;
        while !found && j < perm.len()
            invariant
                j <= perm@.len(),
                perm@ == old_perm,
                i < n == dk.len() == keys@.len(),
                dk == keys.deep_view(),
                pm == perm@.map_values(|u: usize| u as int),
                forall|m: int| 0 <= m < perm@.len() ==> (#[trigger] perm@[m]) < i,
                forall|m: int| 0 <= m < j ==> #[trigger] key_idx_le(dk, pm[m], i as int),
                found ==> j < perm@.len() && !key_idx_le(dk, pm[j as int], i as int),
            decreases perm@.len() - j + (if found { 0int } else { 1int }),
        {
            let p = perm[j];
            let below = chars_le(&keys[p], &keys[i]);
            let above = chars_le(&keys[i], &keys[p]);
            proof {
                assert(dk[p as int] == keys@[p as int]@);
                assert(dk[i as int] == keys@[i as int]@);
            }
            if below && (!above || p <= i) {
                proof {
                    assert(key_idx_le(dk, pm[j as int], i as int));
                }
                j = j + 1;
            } else {
                proof {
                    assert(!key_idx_le(dk, pm[j as int], i as int));
                }
                found = true;
            }
        }
        proof {
            broadcast use vstd::seq_lib::group_to_multiset_ensures;

            lemma_key_idx_le_total_ordering(dk);
            let newperm = old_perm.insert(j as int, i as usize);
            let newpm = pm.insert(j as int, i as int);
            assert(newperm.map_values(|u: usize| u as int) =~= newpm);
            lemma_insert_multiset(pm, j as int, i as int);
            assert(ident.take(i + 1) =~= ident.take(i as int).push(i as int));
            assert forall|m1: int, m2: int| 0 <= m1 < m2 < newperm.len() implies #[trigger]
                key_idx_le(dk, newperm[m1] as int, newperm[m2] as int) by {
                let leq = |a: int, b: int| key_idx_le(dk, a, b);
                assert(newperm[m1] as int == newpm[m1]);
                assert(newperm[m2] as int == newpm[m2]);
                if m2 < j {
                    assert(key_idx_le(dk, pm[m1], pm[m2]));
                } else if m1 < j && m2 == j {
                    assert(key_idx_le(dk, pm[m1], i as int));
                } else if m1 < j && m2 > j {
                    assert(key_idx_le(dk, pm[m1], pm[m2 - 1]));
                } else if m1 == j {
                    // found must hold here or m2 cannot exist
                    assert(j < pm.len());
                    assert(!key_idx_le(dk, pm[j as int], i as int));
                    assert(leq(i as int, pm[j as int]) || leq(pm[j as int], i as int));
                    assert(key_idx_le(dk, i as int, pm[j as int]));
                    if m2 - 1 > j {
                        assert(key_idx_le(dk, pm[j as int], pm[m2 - 1]));
                        assert(leq(i as int, pm[j as int]) && leq(pm[j as int], pm[m2 - 1])
                            ==> leq(i as int, pm[m2 - 1]));
                    }
                } else {
                    assert(key_idx_le(dk, pm[m1 - 1], pm[m2 - 1]));
                }
            }
        }
        perm.insert(j, i);
        i = i + 1;
    }
    proof {
        broadcast use vstd::seq_lib::group_to_multiset_ensures;

        lemma_key_idx_le_total_ordering(dk);
        let leq = |a: int, b: int| key_idx_le(dk, a, b);
        let pm = perm@.map_values(|u: usize| u as int);
        assert(ident.take(n as int) =~= ident);
        ident.lemma_sort_by_ensures(leq);
        assert(sorted_by(pm, leq)) by {
            assert(forall|m1: int, m2: int|
                0 <= m1 < m2 < pm.len() ==> #[trigger] leq(pm[m1], pm[m2]));
        }
        lemma_sorted_unique(pm, ident.sort_by(leq), leq);
        assert(pm =~= ident.sort_by(leq));
        assert(sort_perm(dk) == ident.sort_by(leq));
        // every position below the length occurs in the permutation, once
        assert(ident.no_duplicates());
        ident.lemma_multiset_has_no_duplicates();
        pm.lemma_multiset_has_no_duplicates_conv();
        assert(pm.no_duplicates());
        assert(perm@.no_duplicates()) by {
            assert forall|a: int, b: int|
                0 <= a < perm@.len() && 0 <= b < perm@.len() && a != b implies perm@[a]
                != perm@[b] by {
                assert(pm[a] != pm[b]);
            }
        }
        assert forall|q: usize| q < keys@.len() implies #[trigger] perm@.contains(q) by {
            assert(ident[q as int] == q as int);
            assert(ident.contains(q as int));
            assert(ident.to_multiset().contains(q as int));
            assert(pm.to_multiset() =~= ident.to_multiset());
            assert(pm.to_multiset().contains(q as int));
            assert(pm.contains(q as int));
            let m = choose|m: int| 0 <= m < pm.len() && pm[m] == q as int;
            assert(perm@[m] == q);
        }
    }
    perm
}

} // verus!
