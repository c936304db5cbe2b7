//! The token side of the fingerprint engine: one token per observed
//! filesystem node, collected during a walk and hashed order-independently.
use vstd::prelude::*;

use crate::digest::{compute_fingerprint_hash, fingerprint_chars};
use crate::snapshot::{
    DescriptState, DescriptV, DirListing, EntrySnapshot, EntryV, ExtraRoot, ExtraV, ListingV, MtimeState,
    ParentSnapshot, ParentV, ScanError,
};
use crate::text::{dec_digits, push_dec_u128};

verus! {

// --- token grammar --------------------------------------------------------

/// The fixed token naming the token format itself.
pub open spec fn version_token() -> Seq<char> {
    "fingerprint-version|1"@
}

/// The text standing for a node's timestamp.
pub open spec fn mtime_text(m: MtimeState) -> Seq<char> {
    match m {
        MtimeState::Known(n) => dec_digits(n as nat),
        MtimeState::Unreadable => "unreadable"@,
    }
}

/// A parent token: the label and normalized path of a root, and its
/// timestamp or an explicit state marker.
pub open spec fn parent_token(label: Seq<char>, norm: Seq<char>, state: Seq<char>) -> Seq<char> {
    "parent|"@ + label + "|"@ + norm + "|"@ + state
}

/// The token recording that a root's entries could not be enumerated.
pub open spec fn entries_unreadable_token(label: Seq<char>, norm: Seq<char>) -> Seq<char> {
    "entries|"@ + label + "|"@ + norm + "|unreadable"@
}

/// The state word for a descriptor file in an entry token.
pub open spec fn descript_state_text(d: DescriptV) -> Seq<char> {
    match d {
        DescriptV::Missing => "missing"@,
        DescriptV::Found { mtime: MtimeState::Known(_), .. } => "present"@,
        DescriptV::Found { mtime: MtimeState::Unreadable, .. } => "unreadable"@,
    }
}

/// The timestamp field for a descriptor file in an entry token; a dash when
/// there is no usable time.
pub open spec fn descript_mtime_text(d: DescriptV) -> Seq<char> {
    match d {
        DescriptV::Found { mtime: MtimeState::Known(n), .. } => dec_digits(n as nat),
        _ => "-"@,
    }
}

/// An entry token: parent label and normalized path, the entry's name and
/// timestamp, and the descriptor file's state and timestamp.
pub open spec fn entry_token(label: Seq<char>, norm: Seq<char>, e: EntryV) -> Seq<char> {
    "entry|"@ + label + "|"@ + norm + "|"@ + e.directory_name + "|"@ + mtime_text(e.mtime) + "|"@
        + descript_state_text(e.descript) + "|"@ + descript_mtime_text(e.descript)
}

/// The tokens of a root's entries, one per directory entry; files produce
/// none.
pub open spec fn entry_tokens(label: Seq<char>, norm: Seq<char>, es: Seq<EntryV>) -> Seq<Seq<char>>
    decreases es.len(),
{
    if es.len() == 0 {
        Seq::empty()
    } else {
        entry_tokens(label, norm, es.drop_last()) + if es.last().is_dir {
            seq![entry_token(label, norm, es.last())]
        } else {
            Seq::empty()
        }
    }
}

/// The tokens of a reachable root: its parent token, then either the
/// entries-unreadable marker or one token per entry.
pub open spec fn ready_parent_tokens(
    label: Seq<char>,
    norm: Seq<char>,
    mtime: MtimeState,
    listing: ListingV,
) -> Seq<Seq<char>> {
    seq![parent_token(label, norm, mtime_text(mtime))] + match listing {
        ListingV::Unreadable => seq![entries_unreadable_token(label, norm)],
        ListingV::Entries(es) => entry_tokens(label, norm, es),
    }
}

/// All tokens of one root, whatever its state.
pub open spec fn parent_tokens(label: Seq<char>, norm: Seq<char>, p: ParentV) -> Seq<Seq<char>> {
    match p {
        ParentV::Missing => seq![parent_token(label, norm, "missing"@)],
        ParentV::NotDirectory => seq![parent_token(label, norm, "not-directory"@)],
        ParentV::Dir { mtime, listing } => ready_parent_tokens(label, norm, mtime, listing),
    }
}

/// The tokens of the extra roots, labelled by their normalized paths: the
/// literal spelling a caller configured never reaches the fingerprint.
pub open spec fn extras_tokens(extras: Seq<ExtraV>) -> Seq<Seq<char>>
    decreases extras.len(),
{
    if extras.len() == 0 {
        Seq::empty()
    } else {
        extras_tokens(extras.drop_last()) + parent_tokens(
            extras.last().normalized,
            extras.last().normalized,
            extras.last().snapshot,
        )
    }
}

/// Every token one scan collects: the version token, the mandatory root's
/// tokens under the label `ssp`, and each extra root's tokens.
pub open spec fn all_tokens(ssp_norm: Seq<char>, ssp: ParentV, extras: Seq<ExtraV>) -> Seq<
    Seq<char>,
> {
    seq![version_token()] + parent_tokens("ssp"@, ssp_norm, ssp) + extras_tokens(extras)
}

// --- building tokens at runtime -------------------------------------------

/// The version token.
pub fn make_version_token() -> (r: String)
    ensures
        r@ == version_token(),
{
    let mut s = String::new();
    s.append("fingerprint-version|1");
    s
}

/// Appends the timestamp text to a token under construction.
fn push_mtime_text(s: &mut String, m: &MtimeState)
    ensures
        final(s)@ == old(s)@ + mtime_text(*m),
{
    match m {
        MtimeState::Known(n) => push_dec_u128(s, *n),
        MtimeState::Unreadable => s.append("unreadable"),
    }
}

/// Records a root that is missing or no directory.
pub fn push_absent_parent_token(
    tokens: &mut Vec<String>,
    parent_label: &str,
    normalized_parent: &str,
    state: &str,
)
    ensures
        final(tokens).deep_view() == old(tokens).deep_view().push(
            parent_token(parent_label@, normalized_parent@, state@),
        ),
{
    let mut t = String::new();
    t.append("parent|");
    t.append(parent_label);
    t.append("|");
    t.append(normalized_parent);
    t.append("|");
    t.append(state);
    tokens.push(t);
    proof {
        assert(final(tokens).deep_view() =~= old(tokens).deep_view().push(
            parent_token(parent_label@, normalized_parent@, state@),
        ));
    }
}

/// Records a reachable root itself.
pub(crate) fn push_ready_parent_token(
    tokens: &mut Vec<String>,
    parent_label: &str,
    normalized_parent: &str,
    mtime: &MtimeState,
)
    ensures
        final(tokens).deep_view() == old(tokens).deep_view().push(
            parent_token(parent_label@, normalized_parent@, mtime_text(*mtime)),
        ),
{
    let mut t = String::new();
    t.append("parent|");
    t.append(parent_label);
    t.append("|");
    t.append(normalized_parent);
    t.append("|");
    push_mtime_text(&mut t, mtime);
    tokens.push(t);
    proof {
        assert(final(tokens).deep_view() =~= old(tokens).deep_view().push(
            parent_token(parent_label@, normalized_parent@, mtime_text(*mtime)),
        ));
    }
}

/// Records that a root's entries could not be enumerated.
pub(crate) fn push_entries_unreadable_token(
    tokens: &mut Vec<String>,
    parent_label: &str,
    normalized_parent: &str,
)
    ensures
        final(tokens).deep_view() == old(tokens).deep_view().push(
            entries_unreadable_token(parent_label@, normalized_parent@),
        ),
{
    let mut t = String::new();
    t.append("entries|");
    t.append(parent_label);
    t.append("|");
    t.append(normalized_parent);
    t.append("|unreadable");
    tokens.push(t);
    proof {
        assert(final(tokens).deep_view() =~= old(tokens).deep_view().push(
            entries_unreadable_token(parent_label@, normalized_parent@),
        ));
    }
}

/// Records one directory entry: its timestamp and its descriptor file's
/// presence and timestamp. Fingerprinting sees every directory entry, also
/// those that never become a package.
pub fn push_entry_token(
    tokens: &mut Vec<String>,
    parent_label: &str,
    normalized_parent: &str,
    entry: &EntrySnapshot,
)
    ensures
        final(tokens).deep_view() == old(tokens).deep_view().push(
            entry_token(parent_label@, normalized_parent@, entry@),
        ),
{
    let mut t = String::new();
    t.append("entry|");
    t.append(parent_label);
    t.append("|");
    t.append(normalized_parent);
    t.append("|");
    t.append(entry.directory_name.as_str());
    t.append("|");
    push_mtime_text(&mut t, &entry.mtime);
    t.append("|");
    match &entry.descript {
        DescriptState::Missing => {
            t.append("missing");
            t.append("|");
            t.append("-");
        },
        DescriptState::Found { mtime, bytes: _ } => {
            match mtime {
                MtimeState::Known(n) => {
                    t.append("present");
                    t.append("|");
                    push_dec_u128(&mut t, *n);
                },
                MtimeState::Unreadable => {
                    t.append("unreadable");
                    t.append("|");
                    t.append("-");
                },
            }
        },
    }
    tokens.push(t);
    proof {
        assert(final(tokens).deep_view() =~= old(tokens).deep_view().push(
            entry_token(parent_label@, normalized_parent@, entry@),
        ));
    }
}

/// Walks one root's snapshot and appends its tokens. For the mandatory root
/// (`required`) an absent, non-directory or unenumerable root is fatal; an
/// extra root only leaves a degraded token behind.
pub fn push_parent_fingerprint_tokens(
    tokens: &mut Vec<String>,
    parent_label: &str,
    normalized_parent: &str,
    parent: &ParentSnapshot,
    required: bool,
) -> (r: Result<(), ScanError>)
    ensures
        match r {
            Ok(_) => final(tokens).deep_view() == old(tokens).deep_view() + parent_tokens(
                parent_label@,
                normalized_parent@,
                parent@,
            ),
            Err(e) => required && (match parent@ {
                ParentV::Missing => e == ScanError::GhostDirMissing,
                ParentV::NotDirectory => e == ScanError::GhostDirNotDirectory,
                ParentV::Dir { listing, .. } => listing is Unreadable
                    && e == ScanError::GhostDirUnreadable,
            }),
        },
        !required ==> r is Ok,
        r is Err ==> !(parent@ matches ParentV::Dir { listing: ListingV::Entries(_), .. }),
        required && !(parent@ matches ParentV::Dir { listing: ListingV::Entries(_), .. })
            ==> r is Err,
{
    match parent {
        ParentSnapshot::Missing => {
            if required {
                return Err(ScanError::GhostDirMissing);
            }
            push_absent_parent_token(tokens, parent_label, normalized_parent, "missing");
            proof {
                assert(final(tokens).deep_view() =~= old(tokens).deep_view() + parent_tokens(
                    parent_label@,
                    normalized_parent@,
                    parent@,
                ));
            }
            Ok(())
        },
        ParentSnapshot::NotDirectory => {
            if required {
                return Err(ScanError::GhostDirNotDirectory);
            }
            push_absent_parent_token(tokens, parent_label, normalized_parent, "not-directory");
            proof {
                assert(final(tokens).deep_view() =~= old(tokens).deep_view() + parent_tokens(
                    parent_label@,
                    normalized_parent@,
                    parent@,
                ));
            }
            Ok(())
        },
        ParentSnapshot::Dir { mtime, listing } => {
            push_ready_parent_token(tokens, parent_label, normalized_parent, mtime);
            match listing {
                DirListing::Unreadable => {
                    if required {
                        return Err(ScanError::GhostDirUnreadable);
                    }
                    push_entries_unreadable_token(tokens, parent_label, normalized_parent);
                    proof {
                        assert(final(tokens).deep_view() =~= old(tokens).deep_view()
                            + parent_tokens(parent_label@, normalized_parent@, parent@));
                    }
                    Ok(())
                },
                DirListing::Entries(es) => {
                    let ghost base = tokens.deep_view();
                    let ghost esv = es.deep_view();
                    let n = es.len();
                    let mut i: usize = 0;
                    proof {
                        assert(entry_tokens(parent_label@, normalized_parent@, esv.take(0)) =~= Seq::<
                            Seq<char>,
                        >::empty());
                        assert(tokens.deep_view() =~= base + entry_tokens(
                            parent_label@,
                            normalized_parent@,
                            esv.take(0),
                        ));
                    }
                    while i < n
                        invariant
                            n == es@.len() == esv.len(),
                            i <= n,
                            esv == es.deep_view(),
                            tokens.deep_view() == base + entry_tokens(
                                parent_label@,
                                normalized_parent@,
                                esv.take(i as int),
                            ),
                        decreases n - i,
                    {
                        proof {
                            assert(esv.take(i + 1).drop_last() =~= esv.take(i as int));
                            assert(esv.take(i + 1).last() == esv[i as int]);
                            assert(esv[i as int] == es@[i as int]@);
                        }
                        if es[i].is_dir {
                            push_entry_token(tokens, parent_label, normalized_parent, &es[i]);
                            proof {
                                assert(tokens.deep_view() =~= base + entry_tokens(
                                    parent_label@,
                                    normalized_parent@,
                                    esv.take(i + 1),
                                ));
                            }
                        } else {
                            proof {
                                assert(tokens.deep_view() =~= base + entry_tokens(
                                    parent_label@,
                                    normalized_parent@,
                                    esv.take(i + 1),
                                ));
                            }
                        }
                        i = i + 1;
                    }
                    proof {
                        assert(esv.take(n as int) =~= esv);
                        assert(final(tokens).deep_view() =~= old(tokens).deep_view()
                            + parent_tokens(parent_label@, normalized_parent@, parent@));
                    }
                    Ok(())
                },
            }
        },
    }
}

/// Computes the whole-tree fingerprint from the mandatory root's snapshot
/// and the deduplicated extra roots. Fails exactly when the mandatory root
/// is missing, not a directory, or cannot be enumerated; a degraded extra
/// root only contributes its state marker.
pub fn build_fingerprint(
    ssp_normalized: &str,
    ssp: &ParentSnapshot,
    extras: &Vec<ExtraRoot>,
) -> (r: Result<String, ScanError>)
    ensures
        r is Ok <==> (ssp@ matches ParentV::Dir { listing: ListingV::Entries(_), .. }),
        match r {
            Ok(fp) => fp@ == fingerprint_chars(
                all_tokens(ssp_normalized@, ssp@, extras.deep_view()),
            ),
            Err(e) => match ssp@ {
                ParentV::Missing => e == ScanError::GhostDirMissing,
                ParentV::NotDirectory => e == ScanError::GhostDirNotDirectory,
                ParentV::Dir { .. } => e == ScanError::GhostDirUnreadable,
            },
        },
{
    let mut tokens: Vec<String> = Vec::new();
    tokens.push(make_version_token());
    proof {
        assert(tokens.deep_view() =~= seq![version_token()]);
    }
    let ghost after_version = tokens.deep_view();
    match push_parent_fingerprint_tokens(&mut tokens, "ssp", ssp_normalized, ssp, true) {
        Ok(_) => {},
        Err(e) => {
            return Err(e);
        },
    }
    let ghost base = tokens.deep_view();
    let ghost exv = extras.deep_view();
    let n = extras.len();
    let mut i: usize = 0;
    proof {
        assert(extras_tokens(exv.take(0)) =~= Seq::<Seq<char>>::empty());
        assert(tokens.deep_view() =~= base + extras_tokens(exv.take(0)));
    }
    while i < n
        invariant
            n == extras@.len() == exv.len(),
            i <= n,
            exv == extras.deep_view(),
            tokens.deep_view() == base + extras_tokens(exv.take(i as int)),
        decreases n - i,
    {
        proof {
            assert(exv.take(i + 1).drop_last() =~= exv.take(i as int));
            assert(exv.take(i + 1).last() == exv[i as int]);
            assert(exv[i as int] == extras@[i as int]@);
        }
        let x = &extras[i];
        match push_parent_fingerprint_tokens(
            &mut tokens,
            x.normalized.as_str(),
            x.normalized.as_str(),
            &x.snapshot,
            false,
        ) {
            Ok(_) => {},
            Err(_) => {
                proof {
                    assert(false);
                }
            },
        }
        proof {
            assert(tokens.deep_view() =~= base + extras_tokens(exv.take(i + 1)));
        }
        i = i + 1;
    }
    proof {
        assert(exv.take(n as int) =~= exv);
        assert(tokens.deep_view() =~= all_tokens(ssp_normalized@, ssp@, exv));
    }
    Ok(compute_fingerprint_hash(&tokens))
}

// --- laws -------------------------------------------------------------------

/// Distinct timestamps render to distinct token fields.
pub proof fn lemma_mtime_text_injective(m1: MtimeState, m2: MtimeState)
    requires
        m1 != m2,
    ensures
        mtime_text(m1) != mtime_text(m2),
{
    reveal_strlit("unreadable");
    match (m1, m2) {
        (MtimeState::Known(n1), MtimeState::Known(n2)) => {
            crate::text::lemma_dec_digits_injective(n1 as nat, n2 as nat);
        },
        (MtimeState::Known(n), MtimeState::Unreadable) => {
            crate::text::lemma_dec_digits_all_digits(n as nat);
            if mtime_text(m1) == mtime_text(m2) {
                assert(crate::text::is_digit_char(dec_digits(n as nat)[0]));
                assert("unreadable"@[0] == 'u');
                assert(false);
            }
        },
        (MtimeState::Unreadable, MtimeState::Known(n)) => {
            crate::text::lemma_dec_digits_all_digits(n as nat);
            if mtime_text(m1) == mtime_text(m2) {
                assert(crate::text::is_digit_char(dec_digits(n as nat)[0]));
                assert("unreadable"@[0] == 'u');
                assert(false);
            }
        },
        (MtimeState::Unreadable, MtimeState::Unreadable) => {
            assert(false);
        },
    }
}

/// The whole-tree digest notices a touched directory: an entry whose
/// modification time changed — its name, descriptor state and everything
/// else unchanged — produces a different entry token, so the sorted token
/// list that feeds the hash changes even though no package content did.
pub proof fn lemma_entry_token_mtime_sensitive(
    label: Seq<char>,
    norm: Seq<char>,
    e1: EntryV,
    e2: EntryV,
)
    requires
        e1.directory_name == e2.directory_name,
        e1.descript == e2.descript,
        e1.mtime != e2.mtime,
    ensures
        entry_token(label, norm, e1) != entry_token(label, norm, e2),
{
    lemma_mtime_text_injective(e1.mtime, e2.mtime);
    let p = "entry|"@ + label + "|"@ + norm + "|"@ + e1.directory_name + "|"@;
    let m1 = mtime_text(e1.mtime);
    let m2 = mtime_text(e2.mtime);
    let s = "|"@ + descript_state_text(e1.descript) + "|"@ + descript_mtime_text(e1.descript);
    assert(entry_token(label, norm, e1) =~= p + m1 + s);
    assert(entry_token(label, norm, e2) =~= p + m2 + s);
    if m1.len() == m2.len() {
        if entry_token(label, norm, e1) == entry_token(label, norm, e2) {
            assert forall|j: int| 0 <= j < m1.len() implies m1[j] == m2[j] by {
                assert((p + m1 + s)[p.len() + j] == m1[j]);
                assert((p + m2 + s)[p.len() + j] == m2[j]);
            }
            assert(m1 =~= m2);
            assert(false);
        }
    } else {
        assert((p + m1 + s).len() != (p + m2 + s).len());
    }
}

/// The whole-tree fingerprint is the same for any permutation of the
/// extra-roots list. `fs1` and `fs2` are the configured folder lists (one a
/// reordering of the other), `r1` and `r2` what
/// [`crate::paths::unique_sorted_additional_folders`] yields for them, and
/// `ex1`, `ex2` the walked roots; `snap` stands for the filesystem, one
/// snapshot per normalized root, as deduplication presumes for aliasing
/// spellings of one directory.
pub proof fn lemma_fingerprint_extra_roots_order_independent(
    ssp_norm: Seq<char>,
    ssp: ParentV,
    fs1: Seq<(String, String)>,
    fs2: Seq<(String, String)>,
    r1: Seq<(String, String)>,
    r2: Seq<(String, String)>,
    ex1: Seq<ExtraV>,
    ex2: Seq<ExtraV>,
    snap: spec_fn(Seq<char>) -> ParentV,
)
    requires
        fs1.to_multiset() == fs2.to_multiset(),
        forall|m1: int, m2: int|
            0 <= m1 < m2 < r1.len() ==> crate::text::seq_lt(
                #[trigger] r1[m1].1@,
                #[trigger] r1[m2].1@,
            ),
        forall|m1: int, m2: int|
            0 <= m1 < m2 < r2.len() ==> crate::text::seq_lt(
                #[trigger] r2[m1].1@,
                #[trigger] r2[m2].1@,
            ),
        forall|m: int|
            0 <= m < r1.len() ==> crate::paths::input_has_norm(fs1, #[trigger] r1[m].1@),
        forall|i: int|
            0 <= i < fs1.len() ==> #[trigger] crate::paths::rows_have_key(
                r1,
                crate::paths::normal_of(fs1[i].1@),
            ),
        forall|m: int|
            0 <= m < r2.len() ==> crate::paths::input_has_norm(fs2, #[trigger] r2[m].1@),
        forall|i: int|
            0 <= i < fs2.len() ==> #[trigger] crate::paths::rows_have_key(
                r2,
                crate::paths::normal_of(fs2[i].1@),
            ),
        ex1.len() == r1.len(),
        ex2.len() == r2.len(),
        forall|i: int|
            0 <= i < ex1.len() ==> (#[trigger] ex1[i]).normalized == r1[i].1@ && ex1[i].snapshot
                == snap(ex1[i].normalized),
        forall|i: int|
            0 <= i < ex2.len() ==> (#[trigger] ex2[i]).normalized == r2[i].1@ && ex2[i].snapshot
                == snap(ex2[i].normalized),
    ensures
        crate::digest::fingerprint_chars(all_tokens(ssp_norm, ssp, ex1))
            == crate::digest::fingerprint_chars(all_tokens(ssp_norm, ssp, ex2)),
{
    crate::paths::lemma_unique_sorted_keys_order_independent(fs1, fs2, r1, r2);
    let k1 = r1.map_values(|p: (String, String)| p.1@);
    let k2 = r2.map_values(|p: (String, String)| p.1@);
    assert(k1 == k2);
    assert(k1.len() == r1.len());
    assert(k2.len() == r2.len());
    assert(ex1.len() == ex2.len());
    assert forall|i: int| 0 <= i < ex1.len() implies (#[trigger] ex1[i]).normalized
        == ex2[i].normalized && ex1[i].snapshot == ex2[i].snapshot by {
        assert(k1[i] == r1[i].1@ && k2[i] == r2[i].1@);
    }
    lemma_tokens_ignore_source_literal(ssp_norm, ssp, ex1, ex2);
}

/// Entry tokens distribute over concatenation of entry lists.
proof fn lemma_entry_tokens_concat(l: Seq<char>, n: Seq<char>, a: Seq<EntryV>, b: Seq<EntryV>)
    ensures
        entry_tokens(l, n, a + b) == entry_tokens(l, n, a) + entry_tokens(l, n, b),
    decreases b.len(),
{
    if b.len() == 0 {
        assert(a + b =~= a);
        assert(entry_tokens(l, n, a) + entry_tokens(l, n, b) =~= entry_tokens(l, n, a));
    } else {
        assert((a + b).drop_last() =~= a + b.drop_last());
        assert((a + b).last() == b.last());
        lemma_entry_tokens_concat(l, n, a, b.drop_last());
        assert(entry_tokens(l, n, a + b) =~= entry_tokens(l, n, a) + entry_tokens(l, n, b));
    }
}

/// The entry tokens of a root depend only on which entries it holds, never
/// on the order the platform enumerated them in: permuted entries produce
/// the same multiset of tokens.
pub proof fn lemma_entry_tokens_order_independent(
    l: Seq<char>,
    n: Seq<char>,
    es1: Seq<EntryV>,
    es2: Seq<EntryV>,
)
    requires
        es1.to_multiset() == es2.to_multiset(),
    ensures
        entry_tokens(l, n, es1).to_multiset() == entry_tokens(l, n, es2).to_multiset(),
    decreases es1.len(),
{
    broadcast use vstd::seq_lib::group_to_multiset_ensures;

    if es1.len() == 0 {
        assert(es1.to_multiset().len() == es1.len());
        assert(es2.to_multiset().len() == es2.len());
        assert(es2.len() == 0);
        assert(entry_tokens(l, n, es1) =~= entry_tokens(l, n, es2));
    } else {
        let x = es1.last();
        let es1p = es1.drop_last();
        assert(es1.to_multiset().contains(x));
        assert(es2.to_multiset().contains(x));
        assert(es2.contains(x));
        let i = choose|i: int| 0 <= i < es2.len() && es2[i] == x;
        let es2r = es2.remove(i);
        assert(es1p =~= es1.remove(es1.len() - 1));
        assert(es1p.to_multiset() == es1.to_multiset().remove(x));
        assert(es2r.to_multiset() == es2.to_multiset().remove(x));
        lemma_entry_tokens_order_independent(l, n, es1p, es2r);
        // split both token lists around the shared entry
        let xs = seq![x];
        let xt = entry_tokens(l, n, xs);
        assert(xs.drop_last() =~= Seq::<EntryV>::empty());
        let a = es2.take(i);
        let b = es2.skip(i + 1);
        assert(es2 =~= a + xs + b);
        assert(es2r =~= a + b);
        lemma_entry_tokens_concat(l, n, a + xs, b);
        lemma_entry_tokens_concat(l, n, a, xs);
        lemma_entry_tokens_concat(l, n, a, b);
        assert(es1 =~= es1p + xs);
        lemma_entry_tokens_concat(l, n, es1p, xs);
        // multisets of the split token lists agree
        vstd::seq_lib::lemma_multiset_commutative(
            entry_tokens(l, n, a) + xt,
            entry_tokens(l, n, b),
        );
        vstd::seq_lib::lemma_multiset_commutative(entry_tokens(l, n, a), xt);
        vstd::seq_lib::lemma_multiset_commutative(entry_tokens(l, n, a), entry_tokens(l, n, b));
        vstd::seq_lib::lemma_multiset_commutative(entry_tokens(l, n, es1p), xt);
        assert(entry_tokens(l, n, es1).to_multiset() =~= entry_tokens(l, n, es2).to_multiset());
    }
}

/// The whole-tree fingerprint of a reachable mandatory root does not
/// depend on the order its entries were enumerated in.
pub proof fn lemma_fingerprint_enumeration_order_independent(
    ssp_norm: Seq<char>,
    mtime: MtimeState,
    es1: Seq<EntryV>,
    es2: Seq<EntryV>,
    extras: Seq<ExtraV>,
)
    requires
        es1.to_multiset() == es2.to_multiset(),
    ensures
        crate::digest::fingerprint_chars(
            all_tokens(ssp_norm, ParentV::Dir { mtime, listing: ListingV::Entries(es1) }, extras),
        ) == crate::digest::fingerprint_chars(
            all_tokens(ssp_norm, ParentV::Dir { mtime, listing: ListingV::Entries(es2) }, extras),
        ),
{
    broadcast use vstd::seq_lib::group_to_multiset_ensures;

    lemma_entry_tokens_order_independent("ssp"@, ssp_norm, es1, es2);
    let p1 = ParentV::Dir { mtime, listing: ListingV::Entries(es1) };
    let p2 = ParentV::Dir { mtime, listing: ListingV::Entries(es2) };
    let head = seq![version_token()] + seq![parent_token(
        "ssp"@,
        ssp_norm,
        mtime_text(mtime),
    )];
    let t1 = all_tokens(ssp_norm, p1, extras);
    let t2 = all_tokens(ssp_norm, p2, extras);
    let e1 = entry_tokens("ssp"@, ssp_norm, es1);
    let e2 = entry_tokens("ssp"@, ssp_norm, es2);
    let tail = extras_tokens(extras);
    assert(t1 =~= head + e1 + tail);
    assert(t2 =~= head + e2 + tail);
    vstd::seq_lib::lemma_multiset_commutative(head, e1);
    vstd::seq_lib::lemma_multiset_commutative(head, e2);
    vstd::seq_lib::lemma_multiset_commutative(head + e1, tail);
    vstd::seq_lib::lemma_multiset_commutative(head + e2, tail);
    assert(t1.to_multiset() =~= t2.to_multiset());
    crate::digest::lemma_fingerprint_tokens_permutation(t1, t2);
}

/// The fingerprint never depends on the literal spelling kept for an extra
/// root: two extra-root lists agreeing on normalized paths and snapshots
/// produce the same tokens, whatever their `source` fields say.
pub proof fn lemma_tokens_ignore_source_literal(
    ssp_norm: Seq<char>,
    ssp: ParentV,
    e1: Seq<ExtraV>,
    e2: Seq<ExtraV>,
)
    requires
        e1.len() == e2.len(),
        forall|i: int|
            0 <= i < e1.len() ==> (#[trigger] e1[i]).normalized == e2[i].normalized && e1[i].snapshot
                == e2[i].snapshot,
    ensures
        extras_tokens(e1) == extras_tokens(e2),
        all_tokens(ssp_norm, ssp, e1) == all_tokens(ssp_norm, ssp, e2),
    decreases e1.len(),
{
    if e1.len() > 0 {
        assert(forall|i: int|
            0 <= i < e1.drop_last().len() ==> #[trigger] e1.drop_last()[i] == e1[i]
                && e2.drop_last()[i] == e2[i]);
        lemma_tokens_ignore_source_literal(ssp_norm, ssp, e1.drop_last(), e2.drop_last());
        assert(e1[e1.len() - 1].normalized == e2[e2.len() - 1].normalized);
        assert(e1[e1.len() - 1].snapshot == e2[e2.len() - 1].snapshot);
        assert(e1.last().normalized == e2.last().normalized);
        assert(e1.last().snapshot == e2.last().snapshot);
        assert(extras_tokens(e1) == extras_tokens(e2));
    } else {
        assert(e1 =~= e2);
    }
}

} // verus!
