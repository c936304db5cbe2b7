//! Discovery of "ghost" character packages under a mandatory root and
//! optional extra roots: a charset-detecting descriptor parser, a thumbnail
//! fallback-chain resolver, a multi-root directory scanner, and a fingerprint
//! engine over the observed filesystem state.
//!
//! All filesystem access happens outside this crate; the functions here work
//! on plain values and snapshots of what a caller observed on disk.
use vstd::prelude::*;

pub mod codec;
pub mod descript;
pub mod digest;
pub mod fields;
pub mod fingerprint;
pub mod launch;
pub mod meta;
pub mod order;
pub mod paths;
pub mod scan;
pub mod snapshot;
pub mod text;
pub mod thumbnail;

verus! {

/// Error raised when a descriptor file could not be read at all.
#[derive(Debug, Clone, Copy, PartialEq, Eq, Structural)]
pub enum GhostMetaError {
    /// The file was absent or unreadable.
    Io,
}

} // verus!
