//! Per-package metadata reading: the display fields of one package and the
//! plain walk over one root, without fingerprinting.
use vstd::prelude::*;

use crate::descript::{descriptor_fields_of, parse_descript};
use crate::snapshot::{
    DescriptState, DescriptV, DirListing, EntrySnapshot, EntryV, ListingV, ParentSnapshot, ParentV,
};
use crate::thumbnail::{resolve_thumbnail, thumbnail_of, ThumbnailInfo, ThumbnailInfoV};
use crate::GhostMetaError;

verus! {

/// The metadata of one package.
pub struct GhostMeta {
    /// The descriptor's `name` field; the directory name when absent.
    pub name: String,
    /// The descriptor's `craftman` field; `None` when absent.
    pub craftman: Option<String>,
    /// The package's directory name.
    pub directory_name: String,
    /// The package root's path.
    pub path: String,
    /// The resolved thumbnail, when one exists.
    pub thumbnail: Option<ThumbnailInfo>,
}

/// Spec-level value of a [`GhostMeta`].
pub ghost struct GhostMetaV {
    pub name: Seq<char>,
    pub craftman: Option<Seq<char>>,
    pub directory_name: Seq<char>,
    pub path: Seq<char>,
    pub thumbnail: Option<ThumbnailInfoV>,
}

impl View for GhostMeta {
    type V = GhostMetaV;

    open spec fn view(&self) -> GhostMetaV {
        GhostMetaV {
            name: self.name@,
            craftman: match self.craftman {
                Some(ref c) => Some(c@),
                None => None,
            },
            directory_name: self.directory_name@,
            path: self.path@,
            thumbnail: match self.thumbnail {
                Some(ref t) => Some(t@),
                None => None,
            },
        }
    }
}

impl DeepView for GhostMeta {
    type V = GhostMetaV;

    open spec fn deep_view(&self) -> GhostMetaV {
        self.view()
    }
}

/// The metadata a package root with readable descriptor bytes yields.
pub open spec fn meta_of(e: EntryV, bytes: Seq<u8>) -> GhostMetaV {
    let f = descriptor_fields_of(bytes);
    GhostMetaV {
        name: if f.contains_key("name"@) {
            f["name"@]
        } else {
            e.directory_name
        },
        craftman: if f.contains_key("craftman"@) {
            Some(f["craftman"@])
        } else {
            None
        },
        directory_name: e.directory_name,
        path: e.path,
        thumbnail: thumbnail_of(e.shell),
    }
}

/// Reads one package root's metadata: its descriptor fields, with the
/// directory name as fallback display name, and its resolved thumbnail. An
/// absent or unreadable descriptor is the one error.
pub fn read_ghost(entry: &EntrySnapshot) -> (r: Result<GhostMeta, GhostMetaError>)
    ensures
        match entry@.descript {
            DescriptV::Found { bytes: Some(b), .. } => r matches Ok(m) && m@ == meta_of(
                entry@,
                b,
            ),
            _ => r matches Err(e) && e == GhostMetaError::Io,
        },
{
    match &entry.descript {
        DescriptState::Found { mtime: _, bytes: Some(b) } => {
            let f = parse_descript(b);
            let name = match f.get("name") {
                Some(v) => v.clone(),
                None => entry.directory_name.clone(),
            };
            let craftman = match f.get("craftman") {
                Some(v) => Some(v.clone()),
                None => None,
            };
            let thumbnail = resolve_thumbnail(&entry.shell);
            Ok(
                GhostMeta {
                    name,
                    craftman,
                    directory_name: entry.directory_name.clone(),
                    path: entry.path.clone(),
                    thumbnail,
                },
            )
        },
        _ => Err(GhostMetaError::Io),
    }
}

/// The metadata records of a root's entries: one per directory entry whose
/// descriptor could be read.
pub open spec fn metas_of(es: Seq<EntryV>) -> Seq<GhostMetaV>
    decreases es.len(),
{
    if es.len() == 0 {
        Seq::empty()
    } else {
        metas_of(es.drop_last()) + {
            let e = es.last();
            if e.is_dir {
                match e.descript {
                    DescriptV::Found { bytes: Some(b), .. } => seq![meta_of(e, b)],
                    _ => Seq::empty(),
                }
            } else {
                Seq::empty()
            }
        }
    }
}

/// Walks one root and reads every package under it. Entries that are no
/// directories or lack a readable descriptor are skipped; only a root that
/// cannot be enumerated at all is an error.
pub fn scan_ghosts(parent: &ParentSnapshot) -> (r: Result<Vec<GhostMeta>, GhostMetaError>)
    ensures
        r is Ok <==> (parent@ matches ParentV::Dir { listing: ListingV::Entries(_), .. }),
        match r {
            Ok(ms) => parent@ matches ParentV::Dir { listing: ListingV::Entries(es), .. }
                && ms.deep_view() == metas_of(es),
            Err(e) => e == GhostMetaError::Io,
        },
{
    let es = match parent {
        ParentSnapshot::Dir { mtime: _, listing: DirListing::Entries(es) } => es,
        _ => {
            return Err(GhostMetaError::Io);
        },
    };
    let ghost esv = es.deep_view();
    let mut metas: Vec<GhostMeta> = Vec::new();
    let n = es.len();
    let mut i: usize = 0;
    proof {
        assert(metas_of(esv.take(0)) =~= Seq::<GhostMetaV>::empty());
        assert(metas.deep_view() =~= metas_of(esv.take(0)));
    }
    while i < n
        invariant
            n == es@.len() == esv.len(),
            i <= n,
            esv == es.deep_view(),
            metas.deep_view() == metas_of(esv.take(i as int)),
        decreases n - i,
    {
        proof {
            assert(esv.take(i + 1).drop_last() =~= esv.take(i as int));
            assert(esv.take(i + 1).last() == esv[i as int]);
            assert(esv[i as int] == es@[i as int]@);
        }
        let e = &es[i];
        if e.is_dir {
            match read_ghost(e) {
                Ok(m) => {
                    metas.push(m);
                },
                Err(_) => {},
            }
        }
        proof {
            assert(metas.deep_view() =~= metas_of(esv.take(i + 1)));
        }
        i = i + 1;
    }
    proof {
        assert(esv.take(n as int) =~= esv);
    }
    Ok(metas)
}

} // verus!
