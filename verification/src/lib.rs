//! Naming and transactional-mutation layer of a small Unix-like teaching
//! kernel's file system: path strings are turned into located, reference-
//! counted inode handles, and the mutating system calls (create, link,
//! unlink, open, mkdir, mknod, chdir, pipe) are built on top of those
//! handles with link-count bookkeeping and partial-failure rollback under
//! a write-transaction scope.

pub mod cstr;
pub mod error;
pub mod inode;
pub mod kernel;
pub mod laws;
pub mod lfs;
pub mod path;
pub mod resolve;
pub mod proc;
pub mod tx;
