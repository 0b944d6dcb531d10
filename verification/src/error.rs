//! The error taxonomy of the naming layer. Callers that follow the
//! negative-return-value convention collapse all of these into one generic
//! failure signal; the variants record why an operation refused.

use vstd::prelude::*;

verus! {

/// Why a naming or mutation operation failed.
#[derive(Clone, Copy, PartialEq, Eq, Structural, Debug)]
pub enum FsError {
    /// A path or directory-entry lookup found nothing.
    NotFound,
    /// An intermediate path component, or the object of a write-intent
    /// open, is not a directory.
    NotADirectory,
    /// A create collided with an existing incompatible entry.
    AlreadyExists,
    /// The operation needs a non-directory but found a directory.
    TypeMismatch,
    /// A hard link's target and its new parent live on different devices.
    CrossDevice,
    /// A directory slated for unlinking still holds live entries beyond
    /// its first two.
    NotEmpty,
    /// The name is reserved ("." or "..").
    InvalidName,
    /// No free descriptor, file object, device-major slot, inode slot or
    /// link count headroom is left.
    ResourceExhausted,
    /// A copy to user memory touched an unmapped address.
    Fault,
}

} // verus!
