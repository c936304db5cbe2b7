//! The thumbnail fallback-chain resolver: surface-image pattern matching on
//! a shell directory listing, case-insensitive best-candidate selection, and
//! alpha-mode determination.
use vstd::prelude::*;

use image::ImageDecoder;

use crate::descript::descriptor_fields_of;
use crate::fields::Fields;
use crate::text::{chars_vec, ieq, ieq_range, lower_u32, str_eq};

verus! {

/// How a thumbnail image is made transparent.
#[derive(Debug, Clone, Copy, PartialEq, Eq, Structural)]
pub enum AlphaMode {
    /// The image's own alpha channel is used.
    SelfAlpha,
    /// The top-left pixel is treated as the key colour.
    KeyColor,
}

/// Which rung of the fallback chain produced the thumbnail.
#[derive(Debug, Clone, Copy, PartialEq, Eq, Structural)]
pub enum ThumbnailKind {
    /// A surface image under the shell's master directory.
    Surface,
    /// The `thumbnail.png` directly under the package root.
    Thumbnail,
}

/// A resolved thumbnail.
#[derive(Debug, Clone)]
pub struct ThumbnailInfo {
    pub path: String,
    pub alpha: AlphaMode,
    pub kind: ThumbnailKind,
}

/// Spec-level value of a [`ThumbnailInfo`].
pub ghost struct ThumbnailInfoV {
    pub path: Seq<char>,
    pub alpha: AlphaMode,
    pub kind: ThumbnailKind,
}

impl View for ThumbnailInfo {
    type V = ThumbnailInfoV;

    open spec fn view(&self) -> ThumbnailInfoV {
        ThumbnailInfoV { path: self.path@, alpha: self.alpha, kind: self.kind }
    }
}

/// What a caller observed of a package's visual assets: the listing of the
/// shell's master directory (`None` when it is absent, not a directory or
/// unreadable), the raw bytes of the shell's descriptor file, and the state
/// of the fallback `thumbnail.png`. Paths are carried through unchanged; a
/// chosen surface file's path is `master_path`, a slash, and its filename.
pub struct ShellSnapshot {
    /// Path of the shell's master directory.
    pub master_path: String,
    /// Filenames inside the master directory, in any order.
    pub listing: Option<Vec<String>>,
    /// Contents of the descriptor file beside the surfaces; `None` when it
    /// could not be read.
    pub descript_bytes: Option<Vec<u8>>,
    /// Path of the fallback image under the package root.
    pub thumbnail_path: String,
    /// Whether the fallback image exists as a file.
    pub thumbnail_exists: bool,
    /// Contents of the fallback image; `None` when it could not be read or
    /// header inspection is unavailable.
    pub thumbnail_bytes: Option<Vec<u8>>,
}

/// Spec-level value of a [`ShellSnapshot`].
pub ghost struct ShellV {
    pub master_path: Seq<char>,
    pub listing: Option<Seq<Seq<char>>>,
    pub descript_bytes: Option<Seq<u8>>,
    pub thumbnail_path: Seq<char>,
    pub thumbnail_exists: bool,
    pub thumbnail_bytes: Option<Seq<u8>>,
}

impl View for ShellSnapshot {
    type V = ShellV;

    open spec fn view(&self) -> ShellV {
        ShellV {
            master_path: self.master_path@,
            listing: match self.listing {
                Some(l) => Some(l.deep_view()),
                None => None,
            },
            descript_bytes: match self.descript_bytes {
                Some(b) => Some(b@),
                None => None,
            },
            thumbnail_path: self.thumbnail_path@,
            thumbnail_exists: self.thumbnail_exists,
            thumbnail_bytes: match self.thumbnail_bytes {
                Some(b) => Some(b@),
                None => None,
            },
        }
    }
}

// --- the surface filename pattern ----------------------------------------

/// How many `'0'` characters stand at the front of `s`.
pub open spec fn leading_zeros(s: Seq<char>) -> int
    decreases s.len(),
{
    if s.len() > 0 && s[0] == '0' {
        1 + leading_zeros(s.drop_first())
    } else {
        0
    }
}

pub proof fn lemma_leading_zeros(s: Seq<char>)
    ensures
        0 <= leading_zeros(s) <= s.len(),
        forall|j: int| 0 <= j < leading_zeros(s) ==> s[j] == '0',
        leading_zeros(s) < s.len() ==> s[leading_zeros(s)] != '0',
    decreases s.len(),
{
    if s.len() > 0 && s[0] == '0' {
        lemma_leading_zeros(s.drop_first());
        assert forall|j: int| 0 <= j < leading_zeros(s) implies s[j] == '0' by {
            if j > 0 {
                assert(s.drop_first()[j - 1] == '0');
            }
        }
    }
}

/// The filename matches the surface pattern for extension `ext`:
/// case-insensitively `surface`, then at least one `0`, then exactly `ext`.
pub open spec fn surface_match(name: Seq<char>, ext: Seq<char>) -> bool {
    name.len() >= 7 && ieq(name.take(7), "surface"@) && {
        let rest = name.skip(7);
        let z = leading_zeros(rest);
        z >= 1 && ieq(rest.skip(z), ext)
    }
}

/// Runtime check of [`surface_match`], with the extension handed over as a
/// character vector.
pub fn surface_match_exec(name: &Vec<char>, surface_lit: &Vec<char>, ext: &Vec<char>) -> (r: bool)
    requires
        surface_lit@ == "surface"@,
    ensures
        r == surface_match(name@, ext@),
{
    proof {
        reveal_strlit("surface");
    }
    if name.len() < 7 {
        return false;
    }
    if !ieq_range(name, 0, 7, surface_lit) {
        proof {
            assert(name@.take(7) =~= name@.subrange(0, 7));
        }
        return false;
    }
    proof {
        assert(name@.take(7) =~= name@.subrange(0, 7));
    }
    let ghost rest = name@.skip(7);
    let n = name.len();
    let mut z: usize = 0;
    while 7 + z < n && name[7 + z] == '0'
        invariant
            7 + z <= n == name@.len(),
            rest == name@.skip(7),
            forall|j: int| 0 <= j < z ==> rest[j] == '0',
        decreases n - 7 - z,
    {
        z = z + 1;
    }
    proof {
        lemma_leading_zeros(rest);
        if leading_zeros(rest) < z {
            assert(rest[leading_zeros(rest)] == '0');
        }
        if leading_zeros(rest) > z {
            assert(rest[z as int] == '0');
        }
        assert(leading_zeros(rest) == z);
    }
    if z == 0 {
        return false;
    }
    proof {
        assert(rest.skip(z as int) =~= name@.subrange(7 + z, n as int));
    }
    ieq_range(name, 7 + z, n, ext)
}

// --- best-candidate selection --------------------------------------------

/// Lexicographic comparison of the ASCII-lower-cased filenames, the order
/// the resolver sorts candidates in.
pub open spec fn ikey_le(a: Seq<char>, b: Seq<char>) -> bool
    decreases a.len(),
{
    if a.len() == 0 {
        true
    } else if b.len() == 0 {
        false
    } else if lower_u32(a[0]) < lower_u32(b[0]) {
        true
    } else if lower_u32(a[0]) > lower_u32(b[0]) {
        false
    } else {
        ikey_le(a.drop_first(), b.drop_first())
    }
}

pub proof fn lemma_ikey_le_refl(a: Seq<char>)
    ensures
        ikey_le(a, a),
    decreases a.len(),
{
    if a.len() > 0 {
        lemma_ikey_le_refl(a.drop_first());
    }
}

pub proof fn lemma_ikey_le_connected(a: Seq<char>, b: Seq<char>)
    ensures
        ikey_le(a, b) || ikey_le(b, a),
    decreases a.len(),
{
    if a.len() > 0 && b.len() > 0 {
        lemma_ikey_le_connected(a.drop_first(), b.drop_first());
    }
}

pub proof fn lemma_ikey_le_trans(a: Seq<char>, b: Seq<char>, c: Seq<char>)
    ensures
        ikey_le(a, b) && ikey_le(b, c) ==> ikey_le(a, c),
    decreases a.len(),
{
    if a.len() > 0 && b.len() > 0 && c.len() > 0 {
        lemma_ikey_le_trans(a.drop_first(), b.drop_first(), c.drop_first());
    }
}

/// Runtime check of [`ikey_le`].
pub fn ikey_le_exec(a: &Vec<char>, b: &Vec<char>) -> (r: bool)
    ensures
        r == ikey_le(a@, b@),
{
    let mut i: usize = 0;
    proof {
        assert(a@.skip(0) =~= a@);
        assert(b@.skip(0) =~= b@);
    }
    loop
        invariant
            i <= a.len(),
            i <= b.len(),
            ikey_le(a@, b@) == ikey_le(a@.skip(i as int), b@.skip(i as int)),
        decreases a.len() - i,
    {
        if i >= a.len() {
            return true;
        }
        if i >= b.len() {
            return false;
        }
        let ca = a[i];
        let cb = b[i];
        let la = if 'A' as u32 <= ca as u32 && ca as u32 <= 'Z' as u32 {
            ca as u32 + 32
        } else {
            ca as u32
        };
        let lb = if 'A' as u32 <= cb as u32 && cb as u32 <= 'Z' as u32 {
            cb as u32 + 32
        } else {
            cb as u32
        };
        if la < lb {
            return true;
        }
        if la > lb {
            return false;
        }
        proof {
            assert(a@.skip(i as int).drop_first() =~= a@.skip(i + 1));
            assert(b@.skip(i as int).drop_first() =~= b@.skip(i + 1));
        }
        i = i + 1;
    }
}

/// Index of the best match for extension `ext` in the listing: the smallest
/// ASCII-lower-cased filename, the earliest such entry on a tie; `-1` when
/// nothing matches.
pub open spec fn best_idx(l: Seq<Seq<char>>, ext: Seq<char>) -> int
    decreases l.len(),
{
    if l.len() == 0 {
        -1
    } else {
        let rest = best_idx(l.drop_last(), ext);
        let last = l.len() - 1;
        if !surface_match(l[last], ext) {
            rest
        } else if rest >= 0 && ikey_le(l[rest], l[last]) {
            rest
        } else {
            last
        }
    }
}

/// What [`best_idx`] promises: a match exists exactly when the index is not
/// `-1`, and the chosen entry is minimal, earliest on ties.
pub proof fn lemma_best_idx(l: Seq<Seq<char>>, ext: Seq<char>)
    ensures
        -1 <= best_idx(l, ext) < l.len(),
        best_idx(l, ext) == -1 <==> (forall|i: int|
            0 <= i < l.len() ==> !surface_match(l[i], ext)),
        best_idx(l, ext) >= 0 ==> surface_match(l[best_idx(l, ext)], ext),
        best_idx(l, ext) >= 0 ==> (forall|i: int|
            0 <= i < l.len() && surface_match(l[i], ext) ==> ikey_le(
                l[best_idx(l, ext)],
                l[i],
            ) && (ikey_le(l[i], l[best_idx(l, ext)]) ==> best_idx(l, ext) <= i)),
    decreases l.len(),
{
    if l.len() > 0 {
        let dl = l.drop_last();
        lemma_best_idx(dl, ext);
        let rest = best_idx(dl, ext);
        let last = l.len() - 1;
        let b = best_idx(l, ext);
        assert(forall|i: int| 0 <= i < dl.len() ==> dl[i] == l[i]);
        if !surface_match(l[last], ext) {
            assert(b == rest);
        } else if rest >= 0 && ikey_le(l[rest], l[last]) {
            assert forall|i: int| 0 <= i < l.len() && surface_match(l[i], ext) implies ikey_le(
                l[b],
                l[i],
            ) && (ikey_le(l[i], l[b]) ==> b <= i) by {
                if i < last {
                    assert(ikey_le(l[b], l[i]));
                }
            }
        } else {
            assert(b == last);
            assert forall|i: int| 0 <= i < l.len() && surface_match(l[i], ext) implies ikey_le(
                l[b],
                l[i],
            ) && (ikey_le(l[i], l[b]) ==> b <= i) by {
                lemma_ikey_le_refl(l[last]);
                if i < last {
                    assert(surface_match(dl[i], ext));
                    assert(rest >= 0);
                    assert(ikey_le(l[rest], l[i]));
                    lemma_ikey_le_connected(l[rest], l[last]);
                    assert(ikey_le(l[last], l[rest]));
                    lemma_ikey_le_trans(l[last], l[rest], l[i]);
                    if ikey_le(l[i], l[last]) {
                        lemma_ikey_le_trans(l[rest], l[i], l[last]);
                        assert(false);
                    }
                }
            }
        }
    }
}

// --- alpha-mode determination --------------------------------------------

pub uninterp spec fn png_alpha_of(bytes: Seq<u8>) -> bool;

/// Relies on `image::codecs::png::PngDecoder` and `ImageDecoder::color_type`:
/// reads only the PNG header and tells whether the colour type carries an
/// alpha channel; unparsable input counts as no alpha. A function of the
/// bytes alone.
#[verifier::external_body]
fn png_header_has_alpha(bytes: &Vec<u8>) -> (r: bool)
    ensures
        r == png_alpha_of(bytes@),
{
    let Ok(decoder) = image::codecs::png::PngDecoder::new(std::io::Cursor::new(bytes.as_slice()))
    else {
        return false;
    };
    match decoder.color_type() {
        image::ColorType::Rgba8 | image::ColorType::La8 | image::ColorType::Rgba16
        | image::ColorType::La16 => true,
        _ => false,
    }
}

/// Alpha mode of the shell's surfaces, decided by the shell descriptor's
/// `seriko.use_self_alpha` field.
pub open spec fn seriko_alpha_of(bytes: Option<Seq<u8>>) -> AlphaMode {
    match bytes {
        Some(b) => {
            let f = descriptor_fields_of(b);
            if f.contains_key("seriko.use_self_alpha"@) && f["seriko.use_self_alpha"@] == "1"@ {
                AlphaMode::SelfAlpha
            } else {
                AlphaMode::KeyColor
            }
        },
        None => AlphaMode::KeyColor,
    }
}

/// Reads `seriko.use_self_alpha` from the raw shell descriptor: exactly the
/// value `1` turns the self-alpha mode on; anything else, or an unreadable
/// descriptor, stays with the key colour.
pub fn read_seriko_use_self_alpha(descript_bytes: &Option<Vec<u8>>) -> (r: AlphaMode)
    ensures
        r == seriko_alpha_of(match *descript_bytes {
            Some(ref b) => Some(b@),
            None => None,
        }),
{
    match descript_bytes {
        Some(b) => {
            let f = crate::descript::parse_descript(b);
            match f.get("seriko.use_self_alpha") {
                Some(v) => {
                    if str_eq(v.as_str(), "1") {
                        AlphaMode::SelfAlpha
                    } else {
                        AlphaMode::KeyColor
                    }
                },
                None => AlphaMode::KeyColor,
            }
        },
        None => AlphaMode::KeyColor,
    }
}

/// Alpha mode of the fallback image, decided by its PNG header.
pub open spec fn thumb_alpha_of(bytes: Option<Seq<u8>>) -> AlphaMode {
    match bytes {
        Some(b) => if png_alpha_of(b) {
            AlphaMode::SelfAlpha
        } else {
            AlphaMode::KeyColor
        },
        None => AlphaMode::KeyColor,
    }
}

/// Inspects the fallback image's header; an unreadable or unavailable image
/// degrades to the key colour.
pub fn detect_thumbnail_alpha(bytes: &Option<Vec<u8>>) -> (r: AlphaMode)
    ensures
        r == thumb_alpha_of(match *bytes {
            Some(ref b) => Some(b@),
            None => None,
        }),
{
    match bytes {
        Some(b) => {
            if png_header_has_alpha(b) {
                AlphaMode::SelfAlpha
            } else {
                AlphaMode::KeyColor
            }
        },
        None => AlphaMode::KeyColor,
    }
}

// --- the fallback chain ---------------------------------------------------

/// The record for a chosen surface file: its path is the master directory,
/// a slash, and the filename; its alpha mode comes from the shell
/// descriptor.
pub open spec fn surface_info(shell: ShellV, name: Seq<char>) -> ThumbnailInfoV {
    ThumbnailInfoV {
        path: shell.master_path + "/"@ + name,
        alpha: seriko_alpha_of(shell.descript_bytes),
        kind: ThumbnailKind::Surface,
    }
}

/// The last rung: the `thumbnail.png` under the package root, when it
/// exists.
pub open spec fn thumb_fallback(shell: ShellV) -> Option<ThumbnailInfoV> {
    if shell.thumbnail_exists {
        Some(
            ThumbnailInfoV {
                path: shell.thumbnail_path,
                alpha: thumb_alpha_of(shell.thumbnail_bytes),
                kind: ThumbnailKind::Thumbnail,
            },
        )
    } else {
        None
    }
}

/// The whole fallback chain: the best animated surface, else the best plain
/// surface, else the fallback image, else nothing.
pub open spec fn thumbnail_of(shell: ShellV) -> Option<ThumbnailInfoV> {
    match shell.listing {
        Some(fs) => {
            let a = best_idx(fs, ".apng"@);
            let p = best_idx(fs, ".png"@);
            if a >= 0 {
                Some(surface_info(shell, fs[a]))
            } else if p >= 0 {
                Some(surface_info(shell, fs[p]))
            } else {
                thumb_fallback(shell)
            }
        },
        None => thumb_fallback(shell),
    }
}

/// Resolves a package's thumbnail from the snapshot of its visual assets.
/// No failure is surfaced: everything degrades towards `None` or the key
/// colour.
pub fn resolve_thumbnail(shell: &ShellSnapshot) -> (r: Option<ThumbnailInfo>)
    ensures
        match r {
            Some(t) => thumbnail_of(shell@) == Some(t@),
            None => thumbnail_of(shell@) is None,
        },
{
    match &shell.listing {
        Some(files) => {
            let ghost fs = files.deep_view();
            let surface_lit = chars_vec("surface");
            let apng_lit = chars_vec(".apng");
            let png_lit = chars_vec(".png");
            proof {
                reveal_strlit("surface");
                reveal_strlit(".apng");
                reveal_strlit(".png");
                assert(fs.take(0) =~= Seq::<Seq<char>>::empty());
            }
            let n = files.len();
            let mut have_a = false;
            let mut best_a: usize = 0;
            let mut key_a: Vec<char> = Vec::new();
            let mut have_p = false;
            let mut best_p: usize = 0;
            let mut key_p: Vec<char> = Vec::new();
            let mut i: usize = 0;
            while i < n
                invariant
                    n == files@.len(),
                    i <= n,
                    fs == files.deep_view(),
                    surface_lit@ == "surface"@,
                    apng_lit@ == ".apng"@,
                    png_lit@ == ".png"@,
                    have_a == (best_idx(fs.take(i as int), ".apng"@) >= 0),
                    have_a ==> best_a < i && best_a == best_idx(fs.take(i as int), ".apng"@)
                        && key_a@ == fs[best_a as int],
                    have_p == (best_idx(fs.take(i as int), ".png"@) >= 0),
                    have_p ==> best_p < i && best_p == best_idx(fs.take(i as int), ".png"@)
                        && key_p@ == fs[best_p as int],
                decreases n - i,
            {
                let nv = chars_vec(files[i].as_str());
                proof {
                    assert(fs[i as int] == files@[i as int]@);
                    assert(fs.take(i + 1).drop_last() =~= fs.take(i as int));
                    assert(fs.take(i + 1).last() == fs[i as int]);
                }
                if surface_match_exec(&nv, &surface_lit, &apng_lit) {
                    proof {
                        // the two extensions differ in length, so no name
                        // matches both
                        if surface_match(fs[i as int], ".png"@) {
                            reveal_strlit(".apng");
                            reveal_strlit(".png");
                            let rest = fs[i as int].skip(7);
                            let z = leading_zeros(rest);
                            assert(rest.skip(z).len() == ".apng"@.len());
                            assert(rest.skip(z).len() == ".png"@.len());
                            assert(false);
                        }
                    }
                    if !have_a {
                        have_a = true;
                        best_a = i;
                        key_a = nv;
                    } else if ikey_le_exec(&key_a, &nv) {
                    } else {
                        best_a = i;
                        key_a = nv;
                    }
                } else if surface_match_exec(&nv, &surface_lit, &png_lit) {
                    if !have_p {
                        have_p = true;
                        best_p = i;
                        key_p = nv;
                    } else if ikey_le_exec(&key_p, &nv) {
                    } else {
                        best_p = i;
                        key_p = nv;
                    }
                }
                i = i + 1;
            }
            proof {
                assert(fs.take(n as int) =~= fs);
            }
            if have_a {
                let mut path = shell.master_path.clone();
                path.append("/");
                path.append(files[best_a].as_str());
                let alpha = read_seriko_use_self_alpha(&shell.descript_bytes);
                Some(ThumbnailInfo { path, alpha, kind: ThumbnailKind::Surface })
            } else if have_p {
                let mut path = shell.master_path.clone();
                path.append("/");
                path.append(files[best_p].as_str());
                let alpha = read_seriko_use_self_alpha(&shell.descript_bytes);
                Some(ThumbnailInfo { path, alpha, kind: ThumbnailKind::Surface })
            } else {
                resolve_fallback(shell)
            }
        },
        None => resolve_fallback(shell),
    }
}

/// The last rung of the chain at runtime.
fn resolve_fallback(shell: &ShellSnapshot) -> (r: Option<ThumbnailInfo>)
    ensures
        match r {
            Some(t) => thumb_fallback(shell@) == Some(t@),
            None => thumb_fallback(shell@) is None,
        },
{
    if shell.thumbnail_exists {
        let alpha = detect_thumbnail_alpha(&shell.thumbnail_bytes);
        Some(
            ThumbnailInfo {
                path: shell.thumbnail_path.clone(),
                alpha,
                kind: ThumbnailKind::Thumbnail,
            },
        )
    } else {
        None
    }
}

// --- laws of the fallback chain ------------------------------------------

/// When any filename matches the animated-surface pattern, the resolver
/// yields a surface whose filename matches that pattern — a plain surface or
/// the fallback image is never chosen over an animated surface.
pub proof fn lemma_apng_preferred(shell: ShellV, w: int)
    requires
        shell.listing is Some,
        0 <= w < shell.listing->0.len(),
        surface_match(shell.listing->0[w], ".apng"@),
    ensures
        ({
            let fs = shell.listing->0;
            let a = best_idx(fs, ".apng"@);
            &&& a >= 0
            &&& surface_match(fs[a], ".apng"@)
            &&& thumbnail_of(shell) == Some(surface_info(shell, fs[a]))
        }),
{
    let fs = shell.listing->0;
    lemma_best_idx(fs, ".apng"@);
}

/// The fallback image is chosen only when no filename in the listing
/// matches the surface pattern at all.
pub proof fn lemma_thumbnail_only_without_surface(shell: ShellV)
    requires
        thumbnail_of(shell) matches Some(t) && t.kind == ThumbnailKind::Thumbnail,
        shell.listing is Some,
    ensures
        forall|i: int|
            0 <= i < shell.listing->0.len() ==> !surface_match(
                #[trigger] shell.listing->0[i],
                ".apng"@,
            ) && !surface_match(shell.listing->0[i], ".png"@),
{
    let fs = shell.listing->0;
    lemma_best_idx(fs, ".apng"@);
    lemma_best_idx(fs, ".png"@);
    assert(best_idx(fs, ".apng"@) == -1);
    assert(best_idx(fs, ".png"@) == -1);
}

} // verus!
