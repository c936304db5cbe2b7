//! The filesystem snapshot model: plain-value records of what a caller
//! observed while walking the roots. All scanning and fingerprinting logic
//! works on these values; reading the disk itself stays with the caller.
use vstd::prelude::*;

use crate::thumbnail::{ShellSnapshot, ShellV};

verus! {

/// Last-modified time of a node in nanoseconds since the epoch, or unknown
/// when the platform could not report one.
#[derive(Debug, Clone, Copy, PartialEq, Eq, Structural)]
pub enum MtimeState {
    Known(u128),
    Unreadable,
}

/// State of a package's descriptor file during the walk: absent, or present
/// with its own timestamp and contents. `bytes` is `None` when the file
/// exists but could not be read.
pub enum DescriptState {
    Missing,
    Found { mtime: MtimeState, bytes: Option<Vec<u8>> },
}

/// Spec-level value of a [`DescriptState`].
pub ghost enum DescriptV {
    Missing,
    Found { mtime: MtimeState, bytes: Option<Seq<u8>> },
}

impl View for DescriptState {
    type V = DescriptV;

    open spec fn view(&self) -> DescriptV {
        match self {
            DescriptState::Missing => DescriptV::Missing,
            DescriptState::Found { mtime, bytes } => DescriptV::Found {
                mtime: *mtime,
                bytes: match bytes {
                    Some(b) => Some(b@),
                    None => None,
                },
            },
        }
    }
}

/// One entry observed directly under a root directory.
pub struct EntrySnapshot {
    /// The entry's own name.
    pub directory_name: String,
    /// The entry's full path, as the caller renders paths.
    pub path: String,
    /// Whether the entry is a directory; files are ignored entirely.
    pub is_dir: bool,
    /// The entry's last-modified time.
    pub mtime: MtimeState,
    /// The state of `ghost/master/descript.txt` beneath the entry.
    pub descript: DescriptState,
    /// The entry's visual assets, for thumbnail resolution.
    pub shell: ShellSnapshot,
}

/// Spec-level value of an [`EntrySnapshot`].
pub ghost struct EntryV {
    pub directory_name: Seq<char>,
    pub path: Seq<char>,
    pub is_dir: bool,
    pub mtime: MtimeState,
    pub descript: DescriptV,
    pub shell: ShellV,
}

impl View for EntrySnapshot {
    type V = EntryV;

    open spec fn view(&self) -> EntryV {
        EntryV {
            directory_name: self.directory_name@,
            path: self.path@,
            is_dir: self.is_dir,
            mtime: self.mtime,
            descript: self.descript@,
            shell: self.shell@,
        }
    }
}

impl DeepView for EntrySnapshot {
    type V = EntryV;

    open spec fn deep_view(&self) -> EntryV {
        self.view()
    }
}

/// The entries of a root directory, or the mark that they could not be
/// enumerated.
pub enum DirListing {
    Unreadable,
    Entries(Vec<EntrySnapshot>),
}

/// Spec-level value of a [`DirListing`].
pub ghost enum ListingV {
    Unreadable,
    Entries(Seq<EntryV>),
}

impl View for DirListing {
    type V = ListingV;

    open spec fn view(&self) -> ListingV {
        match self {
            DirListing::Unreadable => ListingV::Unreadable,
            DirListing::Entries(es) => ListingV::Entries(es.deep_view()),
        }
    }
}

/// What the caller observed of one root directory.
pub enum ParentSnapshot {
    /// The root does not exist.
    Missing,
    /// The root exists but is not a directory.
    NotDirectory,
    /// The root is a directory with the given timestamp and entries.
    Dir { mtime: MtimeState, listing: DirListing },
}

/// Spec-level value of a [`ParentSnapshot`].
pub ghost enum ParentV {
    Missing,
    NotDirectory,
    Dir { mtime: MtimeState, listing: ListingV },
}

impl View for ParentSnapshot {
    type V = ParentV;

    open spec fn view(&self) -> ParentV {
        match self {
            ParentSnapshot::Missing => ParentV::Missing,
            ParentSnapshot::NotDirectory => ParentV::NotDirectory,
            ParentSnapshot::Dir { mtime, listing } => ParentV::Dir {
                mtime: *mtime,
                listing: listing@,
            },
        }
    }
}

/// One deduplicated extra root: the literal spelling the caller configured,
/// its normalized path, and its snapshot.
pub struct ExtraRoot {
    /// The spelling kept for labelling packages found under this root.
    pub source: String,
    /// The normalized path, the label used in fingerprint tokens.
    pub normalized: String,
    /// What the walk observed at this root.
    pub snapshot: ParentSnapshot,
}

/// Spec-level value of an [`ExtraRoot`].
pub ghost struct ExtraV {
    pub source: Seq<char>,
    pub normalized: Seq<char>,
    pub snapshot: ParentV,
}

impl View for ExtraRoot {
    type V = ExtraV;

    open spec fn view(&self) -> ExtraV {
        ExtraV { source: self.source@, normalized: self.normalized@, snapshot: self.snapshot@ }
    }
}

impl DeepView for ExtraRoot {
    type V = ExtraV;

    open spec fn deep_view(&self) -> ExtraV {
        self.view()
    }
}

/// Why a scan failed: only the mandatory root's state is fatal.
#[derive(Debug, Clone, Copy, PartialEq, Eq, Structural)]
pub enum ScanError {
    /// The mandatory ghost directory does not exist.
    GhostDirMissing,
    /// The mandatory ghost directory is not a directory.
    GhostDirNotDirectory,
    /// The mandatory ghost directory could not be enumerated.
    GhostDirUnreadable,
}

} // verus!
