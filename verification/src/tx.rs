//! The write-transaction scope.

use vstd::prelude::*;

verus! {

/// A token standing for one atomic group of metadata writes. Every inode
/// metadata mutation, and every handle release (whose write-back may touch
/// the disk), takes one, so an operation cannot forget to bracket its
/// writes. Making the bracketed writes durable in commit order is the
/// storage collaborator's business and is not modelled here.
pub struct Tx {}

} // verus!
