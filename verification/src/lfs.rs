//! The alternate, log-structured backend behind the same operation
//! boundary as the native one. The boundary exists so that a second
//! backend can be substituted; no second implementation is functional,
//! and every operation here reports failure without touching anything.

use vstd::prelude::*;

use crate::error::FsError;
use crate::path::Path;

verus! {

/// Per-inode payload of the log-structured backend.
pub struct InodeInner {}

/// The log-structured backend. It is a placeholder: it owns no state
/// and accepts no operation yet.
pub struct Lfs {}

impl Lfs {
    /// A backend value; it holds nothing.
    pub fn new() -> Lfs {
        Lfs {}
    }

    /// Resolving is not available on this backend.
    pub fn namei(&self, _path: &Path) -> (r: Result<InodeInner, FsError>)
        ensures
            r is Err,
    {
        Err(FsError::NotFound)
    }

    /// Linking is not available on this backend.
    pub fn link(&self, _old_path: &Path, _new_path: &Path) -> (r: Result<(), FsError>)
        ensures
            r is Err,
    {
        Err(FsError::NotFound)
    }

    /// Unlinking is not available on this backend.
    pub fn unlink(&self, _path: &Path) -> (r: Result<(), FsError>)
        ensures
            r is Err,
    {
        Err(FsError::NotFound)
    }

    /// Creation is not available on this backend.
    pub fn create(&self, _path: &Path) -> (r: Result<InodeInner, FsError>)
        ensures
            r is Err,
    {
        Err(FsError::NotFound)
    }
}

} // verus!
