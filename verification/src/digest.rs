//! The hashing end of the fingerprint engine: token sorting, the
//! separator-framed message, the SHA-256 digest and its hex form.
use vstd::prelude::*;
use vstd::relations::sorted_by;
use vstd::seq_lib::lemma_sorted_unique;

use sha2::Digest;

use crate::order::lemma_insert_multiset;
use crate::text::{
    chars_le, chars_vec, lemma_seq_le_connected, lemma_seq_le_total_ordering, push_char, seq_le,
};
use vstd::string::StrSliceExecFns;

verus! {

pub uninterp spec fn sha256_of(data: Seq<u8>) -> Seq<u8>;

/// Relies on `sha2::Sha256`: the 32-byte SHA-256 digest, a function of the
/// input bytes alone.
#[verifier::external_body]
pub(crate) fn sha256_digest(data: &Vec<u8>) -> (r: Vec<u8>)
    ensures
        r@ == sha256_of(data@),
        r@.len() == 32,
{
    sha2::Sha256::digest(data).to_vec()
}

// --- hex ------------------------------------------------------------------

/// The lower-case hex digit for `d`, which must be below sixteen.
pub open spec fn hex_digit(d: int) -> char {
    if d == 0 {
        '0'
    } else if d == 1 {
        '1'
    } else if d == 2 {
        '2'
    } else if d == 3 {
        '3'
    } else if d == 4 {
        '4'
    } else if d == 5 {
        '5'
    } else if d == 6 {
        '6'
    } else if d == 7 {
        '7'
    } else if d == 8 {
        '8'
    } else if d == 9 {
        '9'
    } else if d == 10 {
        'a'
    } else if d == 11 {
        'b'
    } else if d == 12 {
        'c'
    } else if d == 13 {
        'd'
    } else if d == 14 {
        'e'
    } else {
        'f'
    }
}

/// Lower-case hex encoding, two digits per byte.
pub open spec fn hex_of(bytes: Seq<u8>) -> Seq<char>
    decreases bytes.len(),
{
    if bytes.len() == 0 {
        Seq::empty()
    } else {
        hex_of(bytes.drop_last()) + seq![
            hex_digit(bytes.last() as int / 16),
            hex_digit(bytes.last() as int % 16),
        ]
    }
}

/// Appends one hex digit character.
fn push_hex_digit(s: &mut String, d: u8)
    requires
        d < 16,
    ensures
        final(s)@ == old(s)@ + seq![hex_digit(d as int)],
{
    let c = if d == 0 {
        '0'
    } else if d == 1 {
        '1'
    } else if d == 2 {
        '2'
    } else if d == 3 {
        '3'
    } else if d == 4 {
        '4'
    } else if d == 5 {
        '5'
    } else if d == 6 {
        '6'
    } else if d == 7 {
        '7'
    } else if d == 8 {
        '8'
    } else if d == 9 {
        '9'
    } else if d == 10 {
        'a'
    } else if d == 11 {
        'b'
    } else if d == 12 {
        'c'
    } else if d == 13 {
        'd'
    } else if d == 14 {
        'e'
    } else {
        'f'
    };
    push_char(s, c);
}

/// Renders bytes as lower-case hex.
pub fn to_hex(bytes: &Vec<u8>) -> (r: String)
    ensures
        r@ == hex_of(bytes@),
{
    let mut r = String::new();
    let mut i: usize = 0;
    proof {
        assert(bytes@.take(0) =~= Seq::<u8>::empty());
    }
    while i < bytes.len()
        invariant
            i <= bytes@.len(),
            r@ == hex_of(bytes@.take(i as int)),
        decreases bytes@.len() - i,
    {
        let b = bytes[i];
        push_hex_digit(&mut r, b / 16);
        push_hex_digit(&mut r, b % 16);
        proof {
            assert(bytes@.take(i + 1).drop_last() =~= bytes@.take(i as int));
            assert(bytes@.take(i + 1).last() == bytes@[i as int]);
        }
        i = i + 1;
    }
    proof {
        assert(bytes@.take(bytes@.len() as int) =~= bytes@);
    }
    r
}

// --- the fingerprint over tokens ------------------------------------------

/// The byte message hashed for a token list: each token's UTF-8 bytes
/// followed by one newline, so token boundaries stay unambiguous.
pub open spec fn message_of(tokens: Seq<Seq<char>>) -> Seq<u8>
    decreases tokens.len(),
{
    if tokens.len() == 0 {
        Seq::empty()
    } else {
        message_of(tokens.drop_last()) + vstd::utf8::encode_utf8(tokens.last()) + seq![10u8]
    }
}

/// The tokens in ascending lexicographic order.
pub open spec fn sorted_tokens(tokens: Seq<Seq<char>>) -> Seq<Seq<char>> {
    tokens.sort_by(|a: Seq<char>, b: Seq<char>| seq_le(a, b))
}

/// The fingerprint of a token list: sort, frame, hash, hex.
pub open spec fn fingerprint_chars(tokens: Seq<Seq<char>>) -> Seq<char> {
    hex_of(sha256_of(message_of(sorted_tokens(tokens))))
}

/// Sorts a list of strings lexicographically.
fn sort_strings(tokens: &Vec<String>) -> (r: Vec<String>)
    ensures
        r.deep_view() == sorted_tokens(tokens.deep_view()),
{
    let ghost dk = tokens.deep_view();
    let ghost leq = |a: Seq<char>, b: Seq<char>| seq_le(a, b);
    let n = tokens.len();
    let mut r: Vec<String> = Vec::new();
    let mut i: usize = 0;
    proof {
        assert(r.deep_view() =~= Seq::<Seq<char>>::empty());
        assert(dk.take(0) =~= Seq::<Seq<char>>::empty());
    }
    while i < n
        invariant
            n == tokens@.len() == dk.len(),
            i <= n,
            dk == tokens.deep_view(),
            forall|m1: int, m2: int|
                0 <= m1 < m2 < r.deep_view().len() ==> seq_le(
                    #[trigger] r.deep_view()[m1],
                    #[trigger] r.deep_view()[m2],
                ),
            r.deep_view().to_multiset() == dk.take(i as int).to_multiset(),
            r@.len() == i,
        decreases n - i,
    {
        let ghost old_r = r.deep_view();
        let s = tokens[i].clone();
        let sv = chars_vec(s.as_str());
        let mut j: usize = 0;
        let mut found = false;
        while !found && j < r.len()
            invariant
                j <= r@.len(),
                old_r == r.deep_view(),
                i < n == dk.len(),
                dk == tokens.deep_view(),
                s@ == dk[i as int],
                sv@ == s@,
                forall|m: int| 0 <= m < j ==> seq_le(#[trigger] old_r[m], s@),
                found ==> j < old_r.len() && !seq_le(old_r[j as int], s@),
            decreases r@.len() - j + (if found { 0int } else { 1int }),
        {
            let rv = chars_vec(r[j].as_str());
            if chars_le(&rv, &sv) {
                j = j + 1;
            } else {
                found = true;
            }
        }
        let ghost old_rv = r@;
        let ghost s_snap = s;
        let ghost newr = old_r.insert(j as int, s@);
        proof {
            broadcast use vstd::seq_lib::group_to_multiset_ensures;

            lemma_insert_multiset(old_r, j as int, s@);
            assert(dk.take(i + 1) =~= dk.take(i as int).push(dk[i as int]));
            assert forall|m1: int, m2: int| 0 <= m1 < m2 < newr.len() implies seq_le(
                #[trigger] newr[m1],
                #[trigger] newr[m2],
            ) by {
                lemma_seq_le_total_ordering();
                assert forall|a: int, b: int| 0 <= a < b < old_r.len() implies seq_le(
                    #[trigger] old_r[a],
                    #[trigger] old_r[b],
                ) by {
                    assert(seq_le(r.deep_view()[a], r.deep_view()[b]));
                }
                old_r.insert_ensures(j as int, s@);
                assert(forall|m: int| 0 <= m < j ==> #[trigger] newr[m] == old_r[m]);
                assert(newr[j as int] == s@);
                assert forall|m: int| j < m < newr.len() implies #[trigger] newr[m] == old_r[m
                    - 1] by {
                    assert(newr[(m - 1) + 1] == old_r[m - 1]);
                }
                if m2 < j {
                } else if m1 < j && m2 == j {
                    assert(seq_le(old_r[m1], s@));
                } else if m1 < j && m2 > j {
                    assert(seq_le(old_r[m1], old_r[m2 - 1]));
                } else if m1 == j {
                    assert(j < old_r.len());
                    assert(!seq_le(old_r[j as int], s@));
                    lemma_seq_le_connected(old_r[j as int], s@);
                    assert(seq_le(s@, old_r[j as int]));
                    if m2 - 1 > j {
                        assert(seq_le(old_r[j as int], old_r[m2 - 1]));
                        crate::text::lemma_seq_le_trans(s@, old_r[j as int], old_r[m2 - 1]);
                    }
                } else {
                    assert(seq_le(old_r[m1 - 1], old_r[m2 - 1]));
                }
            }
        }
        r.insert(j, s);
        proof {
            assert(r@ == old_rv.insert(j as int, s_snap));
            assert(r.deep_view() =~= newr) by {
                assert(forall|m: int| 0 <= m < r@.len() ==> r.deep_view()[m] == r@[m]@);
                assert(forall|m: int| 0 <= m < j ==> r@[m] == old_rv[m]);
                assert(forall|m: int| j < m < r@.len() ==> r@[m] == old_rv[m - 1]);
                assert(forall|m: int| 0 <= m < old_rv.len() ==> #[trigger] old_rv[m]@ == old_r[m]);
            }
        }
        i = i + 1;
    }
    proof {
        lemma_seq_le_total_ordering();
        assert(dk.take(n as int) =~= dk);
        dk.lemma_sort_by_ensures(leq);
        let rd = r.deep_view();
        assert(sorted_by(rd, leq)) by {
            assert forall|m1: int, m2: int| 0 <= m1 < m2 < rd.len() implies #[trigger] leq(
                rd[m1],
                rd[m2],
            ) by {
                assert(seq_le(rd[m1], rd[m2]));
            }
        }
        lemma_sorted_unique(rd, dk.sort_by(leq), leq);
        assert(r.deep_view() =~= dk.sort_by(leq));
    }
    r
}

/// The byte message for a token list, in the given order.
pub(crate) fn build_message(tokens: &Vec<String>) -> (r: Vec<u8>)
    ensures
        r@ == message_of(tokens.deep_view()),
{
    let ghost dk = tokens.deep_view();
    let mut msg: Vec<u8> = Vec::new();
    let mut i: usize = 0;
    proof {
        assert(dk.take(0) =~= Seq::<Seq<char>>::empty());
    }
    while i < tokens.len()
        invariant
            i <= tokens@.len(),
            dk == tokens.deep_view(),
            msg@ == message_of(dk.take(i as int)),
        decreases tokens@.len() - i,
    {
        let mut bytes = tokens[i].as_str().as_bytes_vec();
        msg.append(&mut bytes);
        msg.push(10u8);
        proof {
            assert(dk.take(i + 1).drop_last() =~= dk.take(i as int));
            assert(dk.take(i + 1).last() == dk[i as int]);
        }
        i = i + 1;
    }
    proof {
        assert(dk.take(tokens@.len() as int) =~= dk);
    }
    msg
}

/// Computes the hex fingerprint of a token list: the tokens are sorted, so
/// the result does not depend on the order they were collected in.
pub fn compute_fingerprint_hash(tokens: &Vec<String>) -> (r: String)
    ensures
        r@ == fingerprint_chars(tokens.deep_view()),
{
    let sorted = sort_strings(tokens);
    let msg = build_message(&sorted);
    let digest = sha256_digest(&msg);
    to_hex(&digest)
}

/// Two token lists holding the same tokens, in whatever order, have the
/// same fingerprint.
pub proof fn lemma_fingerprint_tokens_permutation(t1: Seq<Seq<char>>, t2: Seq<Seq<char>>)
    requires
        t1.to_multiset() == t2.to_multiset(),
    ensures
        fingerprint_chars(t1) == fingerprint_chars(t2),
{
    let leq = |a: Seq<char>, b: Seq<char>| seq_le(a, b);
    lemma_seq_le_total_ordering();
    t1.lemma_sort_by_ensures(leq);
    t2.lemma_sort_by_ensures(leq);
    lemma_sorted_unique(t1.sort_by(leq), t2.sort_by(leq), leq);
    assert(sorted_tokens(t1) == sorted_tokens(t2));
}

} // verus!
