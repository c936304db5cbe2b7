//! The multi-root scanner: walks the snapshots of the mandatory root and
//! the deduplicated extra roots, builds one package record per directory
//! that carries a readable descriptor, collects fingerprint tokens from the
//! same walk, and sorts the packages by display name.
use vstd::prelude::*;

use crate::codec::to_lowercase;
use crate::descript::{descriptor_fields_of, parse_descript};
use crate::digest::{
    build_message, compute_fingerprint_hash, fingerprint_chars, hex_of, message_of, sha256_digest,
    sha256_of, to_hex,
};
use crate::fingerprint::{
    all_tokens, entry_tokens, extras_tokens, make_version_token, parent_tokens,
    push_absent_parent_token, push_entry_token, ready_parent_tokens,
};
use crate::order::{sort_indices_by_key, sort_perm};
use crate::snapshot::{
    DescriptState, DescriptV, DirListing, EntrySnapshot, EntryV, ExtraRoot, ExtraV, ListingV,
    MtimeState, ParentSnapshot, ParentV, ScanError,
};
use crate::text::chars_vec;
use crate::thumbnail::{
    resolve_thumbnail, thumbnail_of, AlphaMode, ThumbnailKind,
};
use vstd::pervasive::VecAdditionalExecFns;
use vstd::string::StringExecFns;

verus! {

/// One discovered package.
pub struct GhostRecord {
    /// Content fingerprint over the displayed fields, for cache diffing.
    pub diff_fingerprint: String,
    /// Display name: the descriptor's `name` field, or the directory name.
    pub name: String,
    /// The descriptor's `craftman` field; empty when absent.
    pub craftman: String,
    /// The package's directory name.
    pub directory_name: String,
    /// The package's full path.
    pub path: String,
    /// Where it was found: `ssp` or the extra root's configured spelling.
    pub source: String,
    /// Path of the resolved thumbnail; empty when there is none.
    pub thumbnail_path: String,
    /// Whether the thumbnail uses its own alpha channel.
    pub thumbnail_use_self_alpha: bool,
    /// `surface`, `thumbnail`, or empty when there is none.
    pub thumbnail_kind: String,
}

/// Spec-level value of a [`GhostRecord`].
pub ghost struct GhostV {
    pub diff_fingerprint: Seq<char>,
    pub name: Seq<char>,
    pub craftman: Seq<char>,
    pub directory_name: Seq<char>,
    pub path: Seq<char>,
    pub source: Seq<char>,
    pub thumbnail_path: Seq<char>,
    pub thumbnail_use_self_alpha: bool,
    pub thumbnail_kind: Seq<char>,
}

impl View for GhostRecord {
    type V = GhostV;

    open spec fn view(&self) -> GhostV {
        GhostV {
            diff_fingerprint: self.diff_fingerprint@,
            name: self.name@,
            craftman: self.craftman@,
            directory_name: self.directory_name@,
            path: self.path@,
            source: self.source@,
            thumbnail_path: self.thumbnail_path@,
            thumbnail_use_self_alpha: self.thumbnail_use_self_alpha,
            thumbnail_kind: self.thumbnail_kind@,
        }
    }
}

impl DeepView for GhostRecord {
    type V = GhostV;

    open spec fn deep_view(&self) -> GhostV {
        self.view()
    }
}

/// What one whole scan yields: the sorted packages and the whole-tree
/// fingerprint.
pub struct ScanGhostsResponse {
    pub ghosts: Vec<GhostRecord>,
    pub fingerprint: String,
}

// --- the per-package content fingerprint -----------------------------------

/// The displayed fields of a package, in the order they are hashed.
pub open spec fn content_fields(
    name: Seq<char>,
    craftman: Seq<char>,
    path: Seq<char>,
    thumbnail_path: Seq<char>,
    thumbnail_use_self_alpha: bool,
    thumbnail_kind: Seq<char>,
) -> Seq<Seq<char>> {
    seq![
        name,
        craftman,
        path,
        thumbnail_path,
        if thumbnail_use_self_alpha {
            "1"@
        } else {
            "0"@
        },
        thumbnail_kind,
    ]
}

/// The content fingerprint: the displayed fields framed with newline
/// separators and hashed. Timestamps take no part in it.
pub open spec fn content_fingerprint_chars(
    name: Seq<char>,
    craftman: Seq<char>,
    path: Seq<char>,
    thumbnail_path: Seq<char>,
    thumbnail_use_self_alpha: bool,
    thumbnail_kind: Seq<char>,
) -> Seq<char> {
    hex_of(
        sha256_of(
            message_of(
                content_fields(
                    name,
                    craftman,
                    path,
                    thumbnail_path,
                    thumbnail_use_self_alpha,
                    thumbnail_kind,
                ),
            ),
        ),
    )
}

/// Computes a package's content fingerprint from its displayed fields.
pub fn content_fingerprint(
    name: &str,
    craftman: &str,
    path: &str,
    thumbnail_path: &str,
    thumbnail_use_self_alpha: bool,
    thumbnail_kind: &str,
) -> (r: String)
    ensures
        r@ == content_fingerprint_chars(
            name@,
            craftman@,
            path@,
            thumbnail_path@,
            thumbnail_use_self_alpha,
            thumbnail_kind@,
        ),
{
    let mut fields: Vec<String> = Vec::new();
    fields.push(String::from_str(name));
    fields.push(String::from_str(craftman));
    fields.push(String::from_str(path));
    fields.push(String::from_str(thumbnail_path));
    if thumbnail_use_self_alpha {
        fields.push(String::from_str("1"));
    } else {
        fields.push(String::from_str("0"));
    }
    fields.push(String::from_str(thumbnail_kind));
    proof {
        assert(fields.deep_view() =~= content_fields(
            name@,
            craftman@,
            path@,
            thumbnail_path@,
            thumbnail_use_self_alpha,
            thumbnail_kind@,
        ));
    }
    let msg = build_message(&fields);
    let digest = sha256_digest(&msg);
    to_hex(&digest)
}

// --- building a package from an entry ---------------------------------------

/// The package a directory entry with readable descriptor bytes becomes.
pub open spec fn make_ghost(source: Seq<char>, e: EntryV, bytes: Seq<u8>) -> GhostV {
    let f = descriptor_fields_of(bytes);
    let name = if f.contains_key("name"@) {
        f["name"@]
    } else {
        e.directory_name
    };
    let craftman = if f.contains_key("craftman"@) {
        f["craftman"@]
    } else {
        Seq::empty()
    };
    let th = thumbnail_of(e.shell);
    let thumbnail_path = match th {
        Some(t) => t.path,
        None => Seq::empty(),
    };
    let talpha = match th {
        Some(t) => t.alpha == AlphaMode::SelfAlpha,
        None => false,
    };
    let tkind = match th {
        Some(t) => match t.kind {
            ThumbnailKind::Surface => "surface"@,
            ThumbnailKind::Thumbnail => "thumbnail"@,
        },
        None => Seq::empty(),
    };
    GhostV {
        diff_fingerprint: content_fingerprint_chars(
            name,
            craftman,
            e.path,
            thumbnail_path,
            talpha,
            tkind,
        ),
        name,
        craftman,
        directory_name: e.directory_name,
        path: e.path,
        source,
        thumbnail_path,
        thumbnail_use_self_alpha: talpha,
        thumbnail_kind: tkind,
    }
}

/// The package an entry contributes: one exactly when the entry is a
/// directory whose descriptor file exists and could be read.
pub open spec fn entry_package(source: Seq<char>, e: EntryV) -> Option<GhostV> {
    if !e.is_dir {
        None
    } else {
        match e.descript {
            DescriptV::Found { bytes: Some(b), .. } => Some(make_ghost(source, e, b)),
            _ => None,
        }
    }
}

/// The packages of a root's entries, in enumeration order.
pub open spec fn entry_packages(source: Seq<char>, es: Seq<EntryV>) -> Seq<GhostV>
    decreases es.len(),
{
    if es.len() == 0 {
        Seq::empty()
    } else {
        entry_packages(source, es.drop_last()) + match entry_package(source, es.last()) {
            Some(g) => seq![g],
            None => Seq::empty(),
        }
    }
}

/// The packages of one root, whatever its state: an absent, non-directory
/// or unenumerable root yields none.
pub open spec fn parent_packages(source: Seq<char>, p: ParentV) -> Seq<GhostV> {
    match p {
        ParentV::Dir { listing: ListingV::Entries(es), .. } => entry_packages(source, es),
        _ => Seq::empty(),
    }
}

/// The packages of the extra roots, labelled with their configured
/// spellings, in root order.
pub open spec fn extras_packages(extras: Seq<ExtraV>) -> Seq<GhostV>
    decreases extras.len(),
{
    if extras.len() == 0 {
        Seq::empty()
    } else {
        extras_packages(extras.drop_last()) + parent_packages(
            extras.last().source,
            extras.last().snapshot,
        )
    }
}

/// Every package of one scan, in discovery order: the mandatory root's
/// under the label `ssp`, then each extra root's.
pub open spec fn all_packages(ssp: ParentV, extras: Seq<ExtraV>) -> Seq<GhostV> {
    parent_packages("ssp"@, ssp) + extras_packages(extras)
}

/// Builds the package record of an entry whose descriptor bytes were read.
fn build_package(source: &str, e: &EntrySnapshot, bytes: &Vec<u8>) -> (g: GhostRecord)
    ensures
        g@ == make_ghost(source@, e@, bytes@),
{
    let f = parse_descript(bytes);
    let name = match f.get("name") {
        Some(v) => v.clone(),
        None => e.directory_name.clone(),
    };
    let craftman = match f.get("craftman") {
        Some(v) => v.clone(),
        None => String::new(),
    };
    let th = resolve_thumbnail(&e.shell);
    let (thumbnail_path, talpha, tkind) = match th {
        Some(t) => {
            let kind = match t.kind {
                ThumbnailKind::Surface => String::from_str("surface"),
                ThumbnailKind::Thumbnail => String::from_str("thumbnail"),
            };
            (t.path, t.alpha == AlphaMode::SelfAlpha, kind)
        },
        None => (String::new(), false, String::new()),
    };
    let diff_fingerprint = content_fingerprint(
        name.as_str(),
        craftman.as_str(),
        e.path.as_str(),
        thumbnail_path.as_str(),
        talpha,
        tkind.as_str(),
    );
    GhostRecord {
        diff_fingerprint,
        name,
        craftman,
        directory_name: e.directory_name.clone(),
        path: e.path.clone(),
        source: String::from_str(source),
        thumbnail_path,
        thumbnail_use_self_alpha: talpha,
        thumbnail_kind: tkind,
    }
}

// --- walking one root --------------------------------------------------------

/// Walks one reachable root: collects its fingerprint tokens and its
/// packages in a single pass. With `required` an unenumerable listing is
/// fatal; otherwise it only leaves its marker token.
pub fn scan_ghost_dir_with_fingerprint(
    source: &str,
    parent_label: &str,
    normalized_parent: &str,
    mtime: &MtimeState,
    listing: &DirListing,
    tokens: &mut Vec<String>,
    required: bool,
) -> (r: Result<Vec<GhostRecord>, ScanError>)
    ensures
        match r {
            Ok(gs) => final(tokens).deep_view() == old(tokens).deep_view() + ready_parent_tokens(
                parent_label@,
                normalized_parent@,
                *mtime,
                listing@,
            ) && gs.deep_view() == parent_packages(
                source@,
                ParentV::Dir { mtime: *mtime, listing: listing@ },
            ),
            Err(e) => required && listing@ is Unreadable && e == ScanError::GhostDirUnreadable,
        },
        r is Err <==> required && listing@ is Unreadable,
{
    let mut ghosts: Vec<GhostRecord> = Vec::new();
    crate::fingerprint::push_ready_parent_token(
        tokens,
        parent_label,
        normalized_parent,
        mtime,
    );
    match listing {
        DirListing::Unreadable => {
            if required {
                return Err(ScanError::GhostDirUnreadable);
            }
            crate::fingerprint::push_entries_unreadable_token(
                tokens,
                parent_label,
                normalized_parent,
            );
            proof {
                assert(final(tokens).deep_view() =~= old(tokens).deep_view()
                    + ready_parent_tokens(parent_label@, normalized_parent@, *mtime, listing@));
            }
            Ok(ghosts)
        },
        DirListing::Entries(es) => {
            let ghost tokens_base = tokens.deep_view();
            let ghost esv = es.deep_view();
            let n = es.len();
            let mut i: usize = 0;
            proof {
                assert(entry_tokens(parent_label@, normalized_parent@, esv.take(0)) =~= Seq::<
                    Seq<char>,
                >::empty());
                assert(tokens.deep_view() =~= tokens_base + entry_tokens(
                    parent_label@,
                    normalized_parent@,
                    esv.take(0),
                ));
                assert(entry_packages(source@, esv.take(0)) =~= Seq::<GhostV>::empty());
                assert(ghosts.deep_view() =~= entry_packages(source@, esv.take(0)));
            }
            while i < n
                invariant
                    n == es@.len() == esv.len(),
                    i <= n,
                    esv == es.deep_view(),
                    tokens.deep_view() == tokens_base + entry_tokens(
                        parent_label@,
                        normalized_parent@,
                        esv.take(i as int),
                    ),
                    ghosts.deep_view() == entry_packages(source@, esv.take(i as int)),
                decreases n - i,
            {
                proof {
                    assert(esv.take(i + 1).drop_last() =~= esv.take(i as int));
                    assert(esv.take(i + 1).last() == esv[i as int]);
                    assert(esv[i as int] == es@[i as int]@);
                }
                let e = &es[i];
                if e.is_dir {
                    push_entry_token(tokens, parent_label, normalized_parent, e);
                    match &e.descript {
                        DescriptState::Found { mtime: _, bytes: Some(b) } => {
                            let g = build_package(source, e, b);
                            ghosts.push(g);
                            proof {
                                assert(ghosts.deep_view() =~= entry_packages(
                                    source@,
                                    esv.take(i + 1),
                                ));
                            }
                        },
                        _ => {
                            proof {
                                assert(entry_package(source@, esv[i as int]) is None);
                                assert(ghosts.deep_view() =~= entry_packages(
                                    source@,
                                    esv.take(i + 1),
                                ));
                            }
                        },
                    }
                    proof {
                        assert(tokens.deep_view() =~= tokens_base + entry_tokens(
                            parent_label@,
                            normalized_parent@,
                            esv.take(i + 1),
                        ));
                    }
                } else {
                    proof {
                        assert(tokens.deep_view() =~= tokens_base + entry_tokens(
                            parent_label@,
                            normalized_parent@,
                            esv.take(i + 1),
                        ));
                        assert(ghosts.deep_view() =~= entry_packages(source@, esv.take(i + 1)));
                    }
                }
                i = i + 1;
            }
            proof {
                assert(esv.take(n as int) =~= esv);
                assert(final(tokens).deep_view() =~= old(tokens).deep_view()
                    + ready_parent_tokens(parent_label@, normalized_parent@, *mtime, listing@));
            }
            Ok(ghosts)
        },
    }
}

// --- sorting packages by display name ---------------------------------------

/// The sort key of each package: its lower-cased display name.
pub open spec fn package_keys(gs: Seq<GhostV>) -> Seq<Seq<char>> {
    Seq::new(gs.len(), |i: int| crate::codec::lower_of(gs[i].name))
}

/// The packages ordered by lower-cased display name, ascending; packages
/// with equal keys keep their discovery order.
pub open spec fn sorted_packages(gs: Seq<GhostV>) -> Seq<GhostV> {
    sort_perm(package_keys(gs)).map_values(|i: int| gs[i])
}

/// Sorts the packages stably by their lower-cased display names.
fn sort_packages(gs: Vec<GhostRecord>) -> (r: Vec<GhostRecord>)
    ensures
        r.deep_view() == sorted_packages(gs.deep_view()),
{
    let ghost orig = gs.deep_view();
    let n = gs.len();
    // compute each package's key
    let mut keys: Vec<Vec<char>> = Vec::new();
    let mut i: usize = 0;
    while i < n
        invariant
            n == gs@.len(),
            orig == gs.deep_view(),
            i <= n,
            keys@.len() == i,
            forall|q: int|
                0 <= q < i ==> #[trigger] keys@[q]@ == crate::codec::lower_of(orig[q].name),
        decreases n - i,
    {
        let low = to_lowercase(gs[i].name.as_str());
        keys.push(chars_vec(low.as_str()));
        proof {
            assert(gs@[i as int]@ == orig[i as int]);
        }
        i = i + 1;
    }
    proof {
        assert(keys.deep_view() =~= package_keys(orig)) by {
            assert(forall|q: int|
                0 <= q < keys@.len() ==> #[trigger] keys.deep_view()[q] =~= keys@[q]@);
        }
    }
    let perm = sort_indices_by_key(&keys);
    let ghost pm = perm@.map_values(|u: usize| u as int);
    proof {
        assert(pm == sort_perm(package_keys(orig)));
    }
    // pull the records out in permuted order
    let mut slots: Vec<Option<GhostRecord>> = Vec::new();
    let mut rest = gs;
    let mut k: usize = 0;
    while k < n
        invariant
            n == orig.len(),
            k <= n,
            slots@.len() == k,
            rest@.len() == n - k,
            forall|q: int|
                0 <= q < k ==> match #[trigger] slots@[q] {
                    Some(g) => g@ == orig[q],
                    None => false,
                },
            forall|q: int| 0 <= q < n - k ==> #[trigger] rest@[q]@ == orig[k + q],
        decreases n - k,
    {
        let g = rest.remove(0);
        slots.push(Some(g));
        k = k + 1;
    }
    let mut out: Vec<GhostRecord> = Vec::new();
    let mut m: usize = 0;
    while m < perm.len()
        invariant
            n == orig.len(),
            perm@.len() == n,
            slots@.len() == n,
            m <= n,
            pm == perm@.map_values(|u: usize| u as int),
            perm@.no_duplicates(),
            forall|q: int| 0 <= q < perm@.len() ==> (#[trigger] perm@[q]) < n,
            out@.len() == m,
            forall|q: int| 0 <= q < m ==> #[trigger] out@[q]@ == orig[perm@[q] as int],
            forall|q: int|
                0 <= q < n ==> match #[trigger] slots@[q] {
                    Some(g) => g@ == orig[q],
                    None => exists|m2: int| 0 <= m2 < m && perm@[m2] == q,
                },
        decreases n - m,
    {
        let p = perm[m];
        let mut taken: Option<GhostRecord> = None;
        proof {
            // this slot has not been taken yet: the permutation never
            // repeats a position
            if slots@[p as int] is None {
                let m2 = choose|m2: int| 0 <= m2 < m && perm@[m2] == p;
                assert(perm@[m2] == perm@[m as int]);
            }
        }
        slots.set_and_swap(p, &mut taken);
        match taken {
            Some(g) => {
                out.push(g);
            },
            None => {
                proof {
                    assert(false);
                }
            },
        }
        proof {
            assert forall|q: int| 0 <= q < n implies match #[trigger] slots@[q] {
                Some(g) => g@ == orig[q],
                None => exists|m2: int| 0 <= m2 < m + 1 && perm@[m2] == q,
            } by {
                if q == p {
                    assert(perm@[m as int] == q);
                }
            }
        }
        m = m + 1;
    }
    proof {
        assert(out.deep_view() =~= sorted_packages(orig));
    }
    out
}

// --- the whole scan -----------------------------------------------------------

/// Scans the mandatory root and the deduplicated extra roots in one pass:
/// yields the packages sorted by display name together with the whole-tree
/// fingerprint. Fails exactly when the mandatory root is missing, not a
/// directory, or cannot be enumerated.
pub fn scan_ghosts_with_fingerprint_internal(
    ssp_normalized: &str,
    ssp: &ParentSnapshot,
    extras: &Vec<ExtraRoot>,
) -> (r: Result<(Vec<GhostRecord>, String), ScanError>)
    ensures
        r is Ok <==> (ssp@ matches ParentV::Dir { listing: ListingV::Entries(_), .. }),
        match r {
            Ok(p) => p.0.deep_view() == sorted_packages(
                all_packages(ssp@, extras.deep_view()),
            ) && p.1@ == fingerprint_chars(
                all_tokens(ssp_normalized@, ssp@, extras.deep_view()),
            ),
            Err(e) => match ssp@ {
                ParentV::Missing => e == ScanError::GhostDirMissing,
                ParentV::NotDirectory => e == ScanError::GhostDirNotDirectory,
                ParentV::Dir { .. } => e == ScanError::GhostDirUnreadable,
            },
        },
{
    let (ssp_mtime, ssp_listing) = match ssp {
        ParentSnapshot::Missing => {
            return Err(ScanError::GhostDirMissing);
        },
        ParentSnapshot::NotDirectory => {
            return Err(ScanError::GhostDirNotDirectory);
        },
        ParentSnapshot::Dir { mtime, listing } => (mtime, listing),
    };
    let mut tokens: Vec<String> = Vec::new();
    tokens.push(make_version_token());
    proof {
        assert(tokens.deep_view() =~= seq![crate::fingerprint::version_token()]);
    }
    let mut ghosts = match scan_ghost_dir_with_fingerprint(
        "ssp",
        "ssp",
        ssp_normalized,
        ssp_mtime,
        ssp_listing,
        &mut tokens,
        true,
    ) {
        Ok(gs) => gs,
        Err(e) => {
            return Err(e);
        },
    };
    proof {
        assert(tokens.deep_view() =~= seq![crate::fingerprint::version_token()] + parent_tokens(
            "ssp"@,
            ssp_normalized@,
            ssp@,
        ));
        assert(ghosts.deep_view() =~= parent_packages("ssp"@, ssp@));
    }
    let ghost tokens_base = tokens.deep_view();
    let ghost ghosts_base = ghosts.deep_view();
    let ghost exv = extras.deep_view();
    let n = extras.len();
    let mut i: usize = 0;
    proof {
        assert(extras_tokens(exv.take(0)) =~= Seq::<Seq<char>>::empty());
        assert(extras_packages(exv.take(0)) =~= Seq::<GhostV>::empty());
        assert(tokens.deep_view() =~= tokens_base + extras_tokens(exv.take(0)));
        assert(ghosts.deep_view() =~= ghosts_base + extras_packages(exv.take(0)));
    }
    while i < n
        invariant
            n == extras@.len() == exv.len(),
            i <= n,
            exv == extras.deep_view(),
            tokens.deep_view() == tokens_base + extras_tokens(exv.take(i as int)),
            ghosts.deep_view() == ghosts_base + extras_packages(exv.take(i as int)),
        decreases n - i,
    {
        proof {
            assert(exv.take(i + 1).drop_last() =~= exv.take(i as int));
            assert(exv.take(i + 1).last() == exv[i as int]);
            assert(exv[i as int] == extras@[i as int]@);
        }
        let x = &extras[i];
        match &x.snapshot {
            ParentSnapshot::Missing => {
                push_absent_parent_token(
                    &mut tokens,
                    x.normalized.as_str(),
                    x.normalized.as_str(),
                    "missing",
                );
                proof {
                    assert(parent_packages(exv[i as int].source, exv[i as int].snapshot) =~= Seq::<
                        GhostV,
                    >::empty());
                }
            },
            ParentSnapshot::NotDirectory => {
                push_absent_parent_token(
                    &mut tokens,
                    x.normalized.as_str(),
                    x.normalized.as_str(),
                    "not-directory",
                );
                proof {
                    assert(parent_packages(exv[i as int].source, exv[i as int].snapshot) =~= Seq::<
                        GhostV,
                    >::empty());
                }
            },
            ParentSnapshot::Dir { mtime, listing } => {
                let mut more = match scan_ghost_dir_with_fingerprint(
                    x.source.as_str(),
                    x.normalized.as_str(),
                    x.normalized.as_str(),
                    mtime,
                    listing,
                    &mut tokens,
                    false,
                ) {
                    Ok(gs) => gs,
                    Err(_) => {
                        proof {
                            assert(false);
                        }
                        Vec::new()
                    },
                };
                let ghost pre = ghosts.deep_view();
                let ghost prev = ghosts@;
                let ghost morev = more.deep_view();
                let ghost morevv = more@;
                ghosts.append(&mut more);
                proof {
                    assert(ghosts@ == prev + morevv);
                    assert(ghosts.deep_view() =~= pre + morev) by {
                        assert(forall|q: int|
                            0 <= q < ghosts@.len() ==> #[trigger] ghosts.deep_view()[q] == ghosts@[q]@);
                        assert(forall|q: int| 0 <= q < prev.len() ==> #[trigger] prev[q]@ == pre[q]);
                        assert(forall|q: int|
                            0 <= q < morevv.len() ==> #[trigger] morevv[q]@ == morev[q]);
                    }
                }
            },
        }
        proof {
            assert(tokens.deep_view() =~= tokens_base + extras_tokens(exv.take(i + 1)));
            assert(ghosts.deep_view() =~= ghosts_base + extras_packages(exv.take(i + 1)));
        }
        i = i + 1;
    }
    proof {
        assert(exv.take(n as int) =~= exv);
        assert(tokens.deep_view() =~= all_tokens(ssp_normalized@, ssp@, exv));
        assert(ghosts.deep_view() =~= all_packages(ssp@, exv));
    }
    let sorted = sort_packages(ghosts);
    let fingerprint = compute_fingerprint_hash(&tokens);
    Ok((sorted, fingerprint))
}

/// Scans without reporting the whole-tree fingerprint: the same package
/// list, sorted by display name.
pub fn scan_ghosts_internal(
    ssp_normalized: &str,
    ssp: &ParentSnapshot,
    extras: &Vec<ExtraRoot>,
) -> (r: Result<Vec<GhostRecord>, ScanError>)
    ensures
        r is Ok <==> (ssp@ matches ParentV::Dir { listing: ListingV::Entries(_), .. }),
        match r {
            Ok(gs) => gs.deep_view() == sorted_packages(all_packages(ssp@, extras.deep_view())),
            Err(e) => match ssp@ {
                ParentV::Missing => e == ScanError::GhostDirMissing,
                ParentV::NotDirectory => e == ScanError::GhostDirNotDirectory,
                ParentV::Dir { .. } => e == ScanError::GhostDirUnreadable,
            },
        },
{
    match scan_ghosts_with_fingerprint_internal(ssp_normalized, ssp, extras) {
        Ok(p) => Ok(p.0),
        Err(e) => Err(e),
    }
}

/// Scans and fingerprints in one call, bundled as a response value.
pub fn scan_ghosts_with_meta(
    ssp_normalized: &str,
    ssp: &ParentSnapshot,
    extras: &Vec<ExtraRoot>,
) -> (r: Result<ScanGhostsResponse, ScanError>)
    ensures
        r is Ok <==> (ssp@ matches ParentV::Dir { listing: ListingV::Entries(_), .. }),
        match r {
            Ok(resp) => resp.ghosts.deep_view() == sorted_packages(
                all_packages(ssp@, extras.deep_view()),
            ) && resp.fingerprint@ == fingerprint_chars(
                all_tokens(ssp_normalized@, ssp@, extras.deep_view()),
            ),
            Err(e) => match ssp@ {
                ParentV::Missing => e == ScanError::GhostDirMissing,
                ParentV::NotDirectory => e == ScanError::GhostDirNotDirectory,
                ParentV::Dir { .. } => e == ScanError::GhostDirUnreadable,
            },
        },
{
    match scan_ghosts_with_fingerprint_internal(ssp_normalized, ssp, extras) {
        Ok(p) => Ok(ScanGhostsResponse { ghosts: p.0, fingerprint: p.1 }),
        Err(e) => Err(e),
    }
}

/// Reports the whole-tree fingerprint alone.
pub fn get_ghosts_fingerprint(
    ssp_normalized: &str,
    ssp: &ParentSnapshot,
    extras: &Vec<ExtraRoot>,
) -> (r: Result<String, ScanError>)
    ensures
        r is Ok <==> (ssp@ matches ParentV::Dir { listing: ListingV::Entries(_), .. }),
        match r {
            Ok(fp) => fp@ == fingerprint_chars(
                all_tokens(ssp_normalized@, ssp@, extras.deep_view()),
            ),
            Err(e) => match ssp@ {
                ParentV::Missing => e == ScanError::GhostDirMissing,
                ParentV::NotDirectory => e == ScanError::GhostDirNotDirectory,
                ParentV::Dir { .. } => e == ScanError::GhostDirUnreadable,
            },
        },
{
    crate::fingerprint::build_fingerprint(ssp_normalized, ssp, extras)
}

// --- laws ---------------------------------------------------------------------

/// A package's content fingerprint ignores every timestamp: two entries
/// differing only in their own or their descriptor's modification time
/// yield the very same package record.
pub proof fn lemma_content_fingerprint_ignores_mtime(source: Seq<char>, e1: EntryV, e2: EntryV)
    requires
        e1.directory_name == e2.directory_name,
        e1.path == e2.path,
        e1.is_dir == e2.is_dir,
        e1.shell == e2.shell,
        match (e1.descript, e2.descript) {
            (DescriptV::Missing, DescriptV::Missing) => true,
            (
                DescriptV::Found { bytes: b1, .. },
                DescriptV::Found { bytes: b2, .. },
            ) => b1 == b2,
            _ => false,
        },
    ensures
        entry_package(source, e1) == entry_package(source, e2),
{
}

} // verus!
