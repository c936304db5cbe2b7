//! Path normalization and the deduplication of extra root directories.
//!
//! A caller resolves each configured extra root to a canonical path string
//! as far as the platform allows; here the string is normalized (separators
//! unified, case folded) and later duplicates are dropped, so that aliasing
//! spellings of one directory are scanned and fingerprinted once.
use vstd::prelude::*;

use crate::codec::{lower_of, to_lowercase};
use crate::order::{key_idx_le, sort_indices_by_key};
use crate::text::{chars_eq, chars_vec, lemma_seq_le_antisym, push_char, seq_le, seq_lt};

verus! {

/// Path separators unified: every backslash becomes a forward slash.
pub open spec fn separators_of(s: Seq<char>) -> Seq<char> {
    s.map_values(|c: char| if c == '\\' { '/' } else { c })
}

/// The normalized form of a path string: separators unified, then Unicode
/// lower-cased.
pub open spec fn normal_of(s: Seq<char>) -> Seq<char> {
    lower_of(separators_of(s))
}

/// Normalizes a canonical path string for comparison and deduplication.
pub fn normalize_path_string(s: &str) -> (r: String)
    ensures
        r@ == normal_of(s@),
{
    let v = chars_vec(s);
    let mut rep = String::new();
    let mut i: usize = 0;
    proof {
        assert(rep@ =~= separators_of(v@.take(0)));
    }
    while i < v.len()
        invariant
            i <= v@.len(),
            v@ == s@,
            rep@ == separators_of(v@.take(i as int)),
        decreases v@.len() - i,
    {
        let c = v[i];
        if c == '\\' {
            push_char(&mut rep, '/');
        } else {
            push_char(&mut rep, c);
        }
        proof {
            assert(separators_of(v@.take(i + 1)) =~= separators_of(v@.take(i as int)).push(
                if v@[i as int] == '\\' {
                    '/'
                } else {
                    v@[i as int]
                },
            ));
        }
        i = i + 1;
    }
    proof {
        assert(v@.take(v@.len() as int) =~= v@);
    }
    to_lowercase(rep.as_str())
}

// --- deduplication of extra roots ----------------------------------------

/// Index of the first folder whose canonical path normalizes to `k`; the
/// length of the list when none does.
pub open spec fn first_with(fs: Seq<(String, String)>, k: Seq<char>) -> int
    decreases fs.len(),
{
    if fs.len() == 0 {
        0
    } else if normal_of(fs.first().1@) == k {
        0
    } else {
        1 + first_with(fs.drop_first(), k)
    }
}

pub proof fn lemma_first_with(fs: Seq<(String, String)>, k: Seq<char>)
    ensures
        0 <= first_with(fs, k) <= fs.len(),
        first_with(fs, k) < fs.len() ==> normal_of(fs[first_with(fs, k)].1@) == k,
        forall|j: int| 0 <= j < first_with(fs, k) ==> normal_of(#[trigger] fs[j].1@) != k,
    decreases fs.len(),
{
    if fs.len() > 0 && normal_of(fs.first().1@) != k {
        lemma_first_with(fs.drop_first(), k);
        assert forall|j: int| 0 <= j < first_with(fs, k) implies normal_of(
            #[trigger] fs[j].1@,
        ) != k by {
            if j > 0 {
                assert(fs.drop_first()[j - 1] == fs[j]);
            }
        }
    }
}

/// Some position in a key list holds exactly `k`.
pub open spec fn keys_contain(ks: Seq<Seq<char>>, k: Seq<char>) -> bool {
    exists|m: int| 0 <= m < ks.len() && ks[m] == k
}

/// Some input folder's canonical path normalizes to `k`.
pub open spec fn input_has_norm(fs: Seq<(String, String)>, k: Seq<char>) -> bool {
    exists|i: int| 0 <= i < fs.len() && normal_of(fs[i].1@) == k
}

/// Some output row carries the normalized key `k`.
pub open spec fn rows_have_key(rs: Seq<(String, String)>, k: Seq<char>) -> bool {
    exists|m: int| 0 <= m < rs.len() && rs[m].1@ == k
}

/// Walks the folders in order, keeping the first spelling of each
/// normalized key.
fn dedup_folders(folders: &Vec<(String, String)>) -> (r: (Vec<String>, Vec<String>, Vec<Vec<char>>))
    ensures
        r.0@.len() == r.1@.len() == r.2@.len(),
        forall|m: int| 0 <= m < r.2@.len() ==> #[trigger] r.1@[m]@ == r.2@[m]@,
        forall|m1: int, m2: int|
            0 <= m1 < m2 < r.2@.len() ==> #[trigger] r.2@[m1]@ != #[trigger] r.2@[m2]@,
        forall|m: int|
            0 <= m < r.2@.len() ==> {
                let f = first_with(folders@, #[trigger] r.2@[m]@);
                &&& 0 <= f < folders@.len()
                &&& r.0@[m] == folders@[f].0
                &&& normal_of(folders@[f].1@) == r.2@[m]@
            },
        forall|ii: int|
            0 <= ii < folders@.len() ==> #[trigger] keys_contain(
                r.2.deep_view(),
                normal_of(folders@[ii].1@),
            ),
{
    let n = folders.len();
    let mut lits: Vec<String> = Vec::new();
    let mut norms: Vec<String> = Vec::new();
    let mut keys: Vec<Vec<char>> = Vec::new();
    let mut i: usize = 0;
    while i < n
        invariant
            n == folders@.len(),
            i <= n,
            lits@.len() == norms@.len() == keys@.len(),
            forall|m: int| 0 <= m < keys@.len() ==> #[trigger] norms@[m]@ == keys@[m]@,
            forall|m1: int, m2: int|
                0 <= m1 < m2 < keys@.len() ==> #[trigger] keys@[m1]@ != #[trigger] keys@[m2]@,
            forall|m: int|
                0 <= m < keys@.len() ==> {
                    let f = first_with(folders@, #[trigger] keys@[m]@);
                    &&& 0 <= f < i
                    &&& lits@[m] == folders@[f].0
                    &&& normal_of(folders@[f].1@) == keys@[m]@
                },
            forall|ii: int|
                0 <= ii < i ==> #[trigger] keys_contain(
                    keys.deep_view(),
                    normal_of(folders@[ii].1@),
                ),
        decreases n - i,
    {
        let norm = normalize_path_string(folders[i].1.as_str());
        let key = chars_vec(norm.as_str());
        let mut seen = false;
        let mut j: usize = 0;
        while j < keys.len()
            invariant
                j <= keys@.len(),
                key@ == norm@,
                seen == exists|m: int| 0 <= m < j && #[trigger] keys@[m]@ == key@,
            decreases keys@.len() - j,
        {
            if chars_eq(&keys[j], &key) {
                seen = true;
            }
            j = j + 1;
        }
        if !seen {
            let ghost keyv = key@;
            let ghost old_keys = keys@;
            let ghost old_dv = keys.deep_view();
            proof {
                // nothing before position i normalizes to this key, so the
                // first spelling of it is the current one
                lemma_first_with(folders@, key@);
                if first_with(folders@, key@) < i {
                    let f = first_with(folders@, key@);
                    let dv = keys.deep_view();
                    assert(keys_contain(dv, normal_of(folders@[f].1@)));
                    let m = choose|m: int| 0 <= m < dv.len() && dv[m] == normal_of(folders@[f].1@);
                    assert(dv[m] =~= keys@[m]@);
                    assert(keys@[m]@ == key@);
                }
                if first_with(folders@, key@) > i {
                    assert(normal_of(folders@[i as int].1@) != key@);
                }
                assert(first_with(folders@, key@) == i);
            }
            lits.push(folders[i].0.clone());
            norms.push(norm);
            keys.push(key);
            proof {
                let dv = keys.deep_view();
                assert(keys@[keys@.len() - 1]@ == keyv);
                assert(keyv == normal_of(folders@[i as int].1@));
                assert forall|ii: int| 0 <= ii < i + 1 implies #[trigger] keys_contain(
                    keys.deep_view(),
                    normal_of(folders@[ii].1@),
                ) by {
                    if ii < i {
                        assert(keys_contain(old_dv, normal_of(folders@[ii].1@)));
                        let m = choose|m: int|
                            0 <= m < old_dv.len() && old_dv[m] == normal_of(folders@[ii].1@);
                        assert(keys@[m] == old_keys[m]);
                        assert(dv[m] =~= old_dv[m]);
                        assert(dv[m] == normal_of(folders@[ii].1@));
                    } else {
                        assert(dv[dv.len() - 1] =~= keyv);
                        assert(dv[dv.len() - 1] == normal_of(folders@[ii].1@));
                    }
                }
            }
        } else {
            proof {
                let dv = keys.deep_view();
                let m = choose|m: int| 0 <= m < keys@.len() && keys@[m]@ == key@;
                assert(dv[m] =~= keys@[m]@);
                assert(dv[m] == normal_of(folders@[i as int].1@));
                assert(keys_contain(dv, normal_of(folders@[i as int].1@)));
            }
        }
        i = i + 1;
    }
    let ghost kv = keys.deep_view();
    let result = (lits, norms, keys);
    proof {
        assert(result.2.deep_view() == kv);
    }
    result
}

/// Deduplicates the extra roots and sorts them: each pair is the literal
/// spelling of the first folder that normalized to the key, with the
/// normalized key itself; the keys come out strictly ascending, so the
/// result does not depend on the input order of aliasing spellings beyond
/// which literal is kept.
pub fn unique_sorted_additional_folders(folders: &Vec<(String, String)>) -> (r: Vec<
    (String, String),
>)
    ensures
        // keys strictly ascending: each normalized root appears once
        forall|m1: int, m2: int|
            0 <= m1 < m2 < r@.len() ==> seq_lt(#[trigger] r@[m1].1@, #[trigger] r@[m2].1@),
        // every output key is the normal form of some input
        forall|m: int| 0 <= m < r@.len() ==> input_has_norm(folders@, #[trigger] r@[m].1@),
        // every input's normal form is among the output keys
        forall|i: int|
            0 <= i < folders@.len() ==> #[trigger] rows_have_key(
                r@,
                normal_of(folders@[i].1@),
            ),
        // the literal kept for a key is the first input spelling of it
        forall|m: int|
            0 <= m < r@.len() ==> {
                let f = first_with(folders@, #[trigger] r@[m].1@);
                &&& 0 <= f < folders@.len()
                &&& r@[m].0 == folders@[f].0
            },
{
    let parts = dedup_folders(folders);
    let ghost pdv = parts.2.deep_view();
    let lits = parts.0;
    let norms = parts.1;
    let keys = parts.2;
    let ghost n = folders@.len();
    proof {
        assert(keys.deep_view() == pdv);
    }
    // sort the distinct keys ascending
    let perm = sort_indices_by_key(&keys);
    let ghost dk = keys.deep_view();
    let mut r: Vec<(String, String)> = Vec::new();
    let mut m: usize = 0;
    while m < perm.len()
        invariant
            perm@.len() == keys@.len() == lits@.len() == norms@.len(),
            m <= perm@.len(),
            forall|q: int| 0 <= q < perm@.len() ==> (#[trigger] perm@[q]) < keys@.len(),
            forall|q: int| 0 <= q < keys@.len() ==> #[trigger] norms@[q]@ == keys@[q]@,
            r@.len() == m,
            forall|q: int| 0 <= q < m ==> #[trigger] r@[q].0 == lits@[perm@[q] as int],
            forall|q: int| 0 <= q < m ==> #[trigger] r@[q].1@ == keys@[perm@[q] as int]@,
        decreases perm@.len() - m,
    {
        let p = perm[m];
        r.push((lits[p].clone(), norms[p].clone()));
        m = m + 1;
    }
    proof {
        assert forall|m1: int, m2: int| 0 <= m1 < m2 < r@.len() implies seq_lt(
            #[trigger] r@[m1].1@,
            #[trigger] r@[m2].1@,
        ) by {
            let p1 = perm@[m1] as int;
            let p2 = perm@[m2] as int;
            assert(key_idx_le(dk, p1, p2));
            assert(dk[p1] =~= keys@[p1]@);
            assert(dk[p2] =~= keys@[p2]@);
            assert(seq_le(r@[m1].1@, r@[m2].1@));
            if r@[m1].1@ == r@[m2].1@ {
                assert(perm@[m1] != perm@[m2]);
                if p1 < p2 {
                    assert(keys@[p1]@ != keys@[p2]@);
                } else {
                    assert(keys@[p2]@ != keys@[p1]@);
                }
            }
        }
        assert forall|mm: int| 0 <= mm < r@.len() implies input_has_norm(
            folders@,
            #[trigger] r@[mm].1@,
        ) by {
            let q = perm@[mm] as int;
            assert(r@[mm].1@ == keys@[q]@);
            let f = first_with(folders@, keys@[q]@);
            assert(0 <= f < folders@.len());
            assert(normal_of(folders@[f].1@) == keys@[q]@);
        }
        assert forall|ii: int| 0 <= ii < folders@.len() implies #[trigger] rows_have_key(
            r@,
            normal_of(folders@[ii].1@),
        ) by {
            assert(keys_contain(dk, normal_of(folders@[ii].1@)));
            let q = choose|q: int| 0 <= q < dk.len() && dk[q] == normal_of(folders@[ii].1@);
            assert(dk[q] =~= keys@[q]@);
            // the sorted permutation covers every key position
            assert(perm@.contains(q as usize));
            let mm = choose|mm: int| 0 <= mm < perm@.len() && perm@[mm] == q as usize;
            assert(r@[mm].1@ == keys@[q]@);
            assert(r@[mm].1@ == normal_of(folders@[ii].1@));
        }
    }
    r
}

// --- order independence ---------------------------------------------------

/// Two strictly ascending key sequences drawing on the same set of keys are
/// equal.
pub proof fn lemma_strictly_sorted_same_keys(x: Seq<Seq<char>>, y: Seq<Seq<char>>)
    requires
        forall|m1: int, m2: int| 0 <= m1 < m2 < x.len() ==> seq_lt(#[trigger] x[m1], #[trigger] x[m2]),
        forall|m1: int, m2: int| 0 <= m1 < m2 < y.len() ==> seq_lt(#[trigger] y[m1], #[trigger] y[m2]),
        forall|m: int| 0 <= m < x.len() ==> y.contains(#[trigger] x[m]),
        forall|m: int| 0 <= m < y.len() ==> x.contains(#[trigger] y[m]),
    ensures
        x == y,
    decreases x.len(),
{
    if x.len() == 0 {
        if y.len() > 0 {
            assert(x.contains(y[0]));
        }
        assert(x =~= y);
    } else if y.len() == 0 {
        assert(y.contains(x[0]));
    } else {
        // both heads are the least of the same set of keys, so they agree
        assert(y.contains(x[0]));
        assert(x.contains(y[0]));
        let iy = choose|i: int| 0 <= i < y.len() && y[i] == x[0];
        let ix = choose|i: int| 0 <= i < x.len() && x[i] == y[0];
        if iy > 0 {
            assert(seq_lt(y[0], y[iy]));
        }
        if ix > 0 {
            assert(seq_lt(x[0], x[ix]));
        }
        assert(seq_le(x[0], y[0]) || seq_le(y[0], x[0])) by {
            crate::text::lemma_seq_le_connected(x[0], y[0]);
        }
        if x[0] != y[0] {
            // whichever is smaller would have to come before the other's
            // head inside the other sequence
            if seq_le(x[0], y[0]) {
                assert(iy > 0);
                assert(seq_lt(y[0], x[0]));
                lemma_seq_le_antisym(x[0], y[0]);
            } else {
                assert(ix > 0);
                assert(seq_lt(x[0], y[0]));
                lemma_seq_le_antisym(x[0], y[0]);
            }
        }
        assert(x[0] == y[0]);
        let xt = x.drop_first();
        let yt = y.drop_first();
        assert forall|m: int| 0 <= m < xt.len() implies yt.contains(#[trigger] xt[m]) by {
            assert(xt[m] == x[m + 1]);
            assert(y.contains(x[m + 1]));
            let i = choose|i: int| 0 <= i < y.len() && y[i] == x[m + 1];
            assert(seq_lt(x[0], x[m + 1]));
            if i == 0 {
                lemma_seq_le_antisym(x[0], x[m + 1]);
                assert(false);
            }
            assert(yt[i - 1] == x[m + 1]);
        }
        assert forall|m: int| 0 <= m < yt.len() implies xt.contains(#[trigger] yt[m]) by {
            assert(yt[m] == y[m + 1]);
            assert(x.contains(y[m + 1]));
            let i = choose|i: int| 0 <= i < x.len() && x[i] == y[m + 1];
            assert(seq_lt(y[0], y[m + 1]));
            if i == 0 {
                lemma_seq_le_antisym(y[0], y[m + 1]);
                assert(false);
            }
            assert(xt[i - 1] == y[m + 1]);
        }
        lemma_strictly_sorted_same_keys(xt, yt);
        assert(x =~= seq![x[0]] + xt);
        assert(y =~= seq![y[0]] + yt);
    }
}

/// Reordering the extra-roots list never changes which normalized roots are
/// scanned and fingerprinted: any two outputs of
/// [`unique_sorted_additional_folders`] for inputs holding the same folders
/// carry the same normalized keys in the same order.
pub proof fn lemma_unique_sorted_keys_order_independent(
    fs1: Seq<(String, String)>,
    fs2: Seq<(String, String)>,
    r1: Seq<(String, String)>,
    r2: Seq<(String, String)>,
)
    requires
        fs1.to_multiset() == fs2.to_multiset(),
        forall|m1: int, m2: int|
            0 <= m1 < m2 < r1.len() ==> seq_lt(#[trigger] r1[m1].1@, #[trigger] r1[m2].1@),
        forall|m1: int, m2: int|
            0 <= m1 < m2 < r2.len() ==> seq_lt(#[trigger] r2[m1].1@, #[trigger] r2[m2].1@),
        forall|m: int| 0 <= m < r1.len() ==> input_has_norm(fs1, #[trigger] r1[m].1@),
        forall|i: int|
            0 <= i < fs1.len() ==> #[trigger] rows_have_key(r1, normal_of(fs1[i].1@)),
        forall|m: int| 0 <= m < r2.len() ==> input_has_norm(fs2, #[trigger] r2[m].1@),
        forall|i: int|
            0 <= i < fs2.len() ==> #[trigger] rows_have_key(r2, normal_of(fs2[i].1@)),
    ensures
        r1.map_values(|p: (String, String)| p.1@) == r2.map_values(|p: (String, String)| p.1@),
{
    broadcast use vstd::seq_lib::group_to_multiset_ensures;

    let k1 = r1.map_values(|p: (String, String)| p.1@);
    let k2 = r2.map_values(|p: (String, String)| p.1@);
    assert forall|m: int| 0 <= m < k1.len() implies k2.contains(#[trigger] k1[m]) by {
        assert(input_has_norm(fs1, r1[m].1@));
        let i = choose|i: int| 0 <= i < fs1.len() && normal_of(fs1[i].1@) == r1[m].1@;
        assert(fs1.to_multiset().contains(fs1[i]));
        assert(fs2.to_multiset().contains(fs1[i]));
        assert(fs2.contains(fs1[i]));
        let j = choose|j: int| 0 <= j < fs2.len() && fs2[j] == fs1[i];
        assert(rows_have_key(r2, normal_of(fs2[j].1@)));
        let mm = choose|mm: int| 0 <= mm < r2.len() && r2[mm].1@ == normal_of(fs2[j].1@);
        assert(k2[mm] == k1[m]);
    }
    assert forall|m: int| 0 <= m < k2.len() implies k1.contains(#[trigger] k2[m]) by {
        assert(input_has_norm(fs2, r2[m].1@));
        let i = choose|i: int| 0 <= i < fs2.len() && normal_of(fs2[i].1@) == r2[m].1@;
        assert(fs2.to_multiset().contains(fs2[i]));
        assert(fs1.to_multiset().contains(fs2[i]));
        assert(fs1.contains(fs2[i]));
        let j = choose|j: int| 0 <= j < fs1.len() && fs1[j] == fs2[i];
        assert(rows_have_key(r1, normal_of(fs1[j].1@)));
        let mm = choose|mm: int| 0 <= mm < r1.len() && r1[mm].1@ == normal_of(fs1[j].1@);
        assert(k1[mm] == k2[m]);
    }
    assert forall|m1: int, m2: int| 0 <= m1 < m2 < k1.len() implies seq_lt(
        #[trigger] k1[m1],
        #[trigger] k1[m2],
    ) by {
        assert(seq_lt(r1[m1].1@, r1[m2].1@));
    }
    assert forall|m1: int, m2: int| 0 <= m1 < m2 < k2.len() implies seq_lt(
        #[trigger] k2[m1],
        #[trigger] k2[m2],
    ) by {
        assert(seq_lt(r2[m1].1@, r2[m2].1@));
    }
    lemma_strictly_sorted_same_keys(k1, k2);
}

} // verus!
