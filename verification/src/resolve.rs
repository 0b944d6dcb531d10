//! The resolver: the directory-descent algorithm that walks a path's
//! components against the inode table, producing either a final inode
//! handle or a (parent handle, final component) pair. It must run inside
//! a transaction scope, because it releases intermediate handles.

use vstd::prelude::*;

use crate::error::FsError;
use crate::inode::{
    entry_ok, lemma_lookup_idx, lookup_idx, tbl_acquire, tbl_release, valid_handle, wf, InodeTable,
    InodeType, InodeV, RcInode, ROOTINO,
};
use crate::path::{path_comps, FileName, Path, SLASH};
use crate::proc::Proc;
use crate::tx::Tx;

verus! {

/// Outcome of a directory descent.
pub enum Resolution {
    /// The descent ended at this table slot.
    Found(int),
    /// An inode that had to be a directory was not one.
    NotDir,
    /// A component was missing, or the path had no component at all
    /// where one was required.
    NotFound,
}

/// Whether a path begins with a separator.
pub open spec fn is_abs(p: Seq<u8>) -> bool {
    p.len() > 0 && p[0] == SLASH
}

/// Where a descent starts: the root for an absolute path, else the
/// caller's working directory.
pub open spec fn start_slot(abs: bool, cwd: int) -> int {
    if abs {
        ROOTINO as int
    } else {
        cwd
    }
}

/// Full descent: consume every component, checking at each step that the
/// current inode is a directory, and answer the final slot.
pub open spec fn resolve_from(t: Seq<InodeV>, cur: int, comps: Seq<Seq<u8>>) -> Resolution
    decreases comps.len(),
{
    if comps.len() == 0 {
        Resolution::Found(cur)
    } else if !(t[cur].typ is Dir) {
        Resolution::NotDir
    } else {
        match lookup_idx(t[cur].entries, comps[0]) {
            Some(k) => resolve_from(t, t[cur].entries[k].inum as int, comps.drop_first()),
            None => Resolution::NotFound,
        }
    }
}

/// Descent that stops one level early: consume all but the last
/// component and answer the slot that holds it; a path without
/// components has no parent to answer.
pub open spec fn resolve_parent_from(t: Seq<InodeV>, cur: int, comps: Seq<Seq<u8>>) -> Resolution
    decreases comps.len(),
{
    if comps.len() == 0 {
        Resolution::NotFound
    } else if !(t[cur].typ is Dir) {
        Resolution::NotDir
    } else if comps.len() == 1 {
        Resolution::Found(cur)
    } else {
        match lookup_idx(t[cur].entries, comps[0]) {
            Some(k) => resolve_parent_from(t, t[cur].entries[k].inum as int, comps.drop_first()),
            None => Resolution::NotFound,
        }
    }
}

/// Two tables that agree on every slot's type and directory contents.
/// Reference counts, link counts and sizes are free.
pub open spec fn same_shape(a: Seq<InodeV>, b: Seq<InodeV>) -> bool {
    &&& a.len() == b.len()
    &&& forall|s: int|
        0 <= s < a.len() ==> (#[trigger] a[s]).typ == b[s].typ && a[s].entries == b[s].entries
}

/// A descent reads only types and directory contents, so it cannot tell
/// two same-shaped tables apart.
pub proof fn lemma_resolve_same(a: Seq<InodeV>, b: Seq<InodeV>, cur: int, comps: Seq<Seq<u8>>)
    requires
        wf(a),
        same_shape(a, b),
        0 <= cur < a.len(),
    ensures
        resolve_from(a, cur, comps) == resolve_from(b, cur, comps),
        resolve_parent_from(a, cur, comps) == resolve_parent_from(b, cur, comps),
    decreases comps.len(),
{
    if comps.len() > 0 {
        assert(a[cur].typ == b[cur].typ);
        assert(a[cur].entries == b[cur].entries);
        if a[cur].typ is Dir {
            match lookup_idx(a[cur].entries, comps[0]) {
                Some(k) => {
                    lemma_lookup_idx(a[cur].entries, comps[0]);
                    assert(entry_ok(a, a[cur].entries[k]));
                    lemma_resolve_same(a, b, a[cur].entries[k].inum as int, comps.drop_first());
                },
                None => {},
            }
        }
    }
}

/// A successful descent from a real, non-zero slot ends at a real,
/// non-zero slot; a successful parent descent ends at a directory.
pub proof fn lemma_resolve_valid(t: Seq<InodeV>, cur: int, comps: Seq<Seq<u8>>)
    requires
        wf(t),
        1 <= cur < t.len(),
    ensures
        forall|i: int| resolve_from(t, cur, comps) == Resolution::Found(i) ==> 1 <= i < t.len(),
        forall|i: int|
            resolve_parent_from(t, cur, comps) == Resolution::Found(i) ==> 1 <= i < t.len()
                && t[i].typ is Dir,
    decreases comps.len(),
{
    if comps.len() > 0 && t[cur].typ is Dir {
        match lookup_idx(t[cur].entries, comps[0]) {
            Some(k) => {
                lemma_lookup_idx(t[cur].entries, comps[0]);
                assert(entry_ok(t, t[cur].entries[k]));
                lemma_resolve_valid(t, t[cur].entries[k].inum as int, comps.drop_first());
            },
            None => {},
        }
    }
}

/// One descent step of the executable resolver, consuming the handle it
/// is given and answering a handle on the destination.
fn namex_rec(path: &Path, cur: RcInode, parent: bool, tx: &Tx, itable: &mut InodeTable) -> (r:
    Result<(RcInode, Option<FileName>), FsError>)
    requires
        wf(old(itable)@),
        valid_handle(old(itable)@, cur),
    ensures
        wf(final(itable)@),
        final(itable)@.len() == old(itable)@.len(),
        ({
            let res = if parent {
                resolve_parent_from(old(itable)@, cur.slot(), path_comps(path@))
            } else {
                resolve_from(old(itable)@, cur.slot(), path_comps(path@))
            };
            match r {
                Ok((h, nm)) => {
                    &&& res == Resolution::Found(h.slot())
                    &&& valid_handle(final(itable)@, h)
                    &&& final(itable)@ == tbl_acquire(
                        tbl_release(old(itable)@, cur.slot()),
                        h.slot(),
                    )
                    &&& if parent {
                        match nm {
                            Some(n) => n@ == path_comps(path@).last(),
                            None => false,
                        }
                    } else {
                        nm is None
                    }
                },
                Err(e) => {
                    &&& (res is NotDir ==> e == FsError::NotADirectory)
                    &&& (res is NotFound ==> e == FsError::NotFound)
                    &&& (res is NotDir || res is NotFound)
                    &&& final(itable)@ == tbl_release(old(itable)@, cur.slot())
                },
            }
        }),
    decreases path@.len(),
{
    let ghost t0 = itable@;
    match path.skipelem() {
        None => {
            if parent {
                itable.release(cur, tx);
                Err(FsError::NotFound)
            } else {
                proof {
                    assert(itable@ =~~= tbl_acquire(tbl_release(t0, cur.slot()), cur.slot()));
                }
                Ok((cur, None))
            }
        },
        Some((rest, name)) => {
            let t = itable.typ_of(&cur);
            if t != InodeType::Dir {
                itable.release(cur, tx);
                return Err(FsError::NotADirectory);
            }
            if parent && rest.as_bytes().len() == 0 {
                proof {
                    assert(itable@ =~~= tbl_acquire(tbl_release(t0, cur.slot()), cur.slot()));
                }
                return Ok((cur, Some(name)));
            }
            match itable.dirlookup(&cur, &name) {
                Ok((next, _off)) => {
                    itable.release(cur, tx);
                    let ghost t1 = itable@;
                    proof {
                        assert(same_shape(t0, t1));
                        lemma_resolve_same(t0, t1, next.slot(), path_comps(rest@));
                    }
                    let r = namex_rec(&rest, next, parent, tx, itable);
                    proof {
                        assert(tbl_release(t1, next.slot()) =~~= tbl_release(t0, cur.slot()));
                    }
                    r
                },
                Err(_) => {
                    itable.release(cur, tx);
                    Err(FsError::NotFound)
                },
            }
        },
    }
}

impl Path {
    /// Walks this path from the root or the working directory. With
    /// `parent` false it answers a handle on the path's target; with
    /// `parent` true it stops one level early and answers the parent's
    /// handle together with the final component, without requiring that
    /// component to exist.
    pub fn namex(&self, parent: bool, tx: &Tx, proc: &Proc, itable: &mut InodeTable) -> (r: Result<
        (RcInode, Option<FileName>),
        FsError,
    >)
        requires
            wf(old(itable)@),
            valid_handle(old(itable)@, proc.cwd),
        ensures
            wf(final(itable)@),
            final(itable)@.len() == old(itable)@.len(),
            ({
                let start = start_slot(is_abs(self@), proc.cwd.slot());
                let res = if parent {
                    resolve_parent_from(old(itable)@, start, path_comps(self@))
                } else {
                    resolve_from(old(itable)@, start, path_comps(self@))
                };
                match r {
                    Ok((h, nm)) => {
                        &&& res == Resolution::Found(h.slot())
                        &&& valid_handle(final(itable)@, h)
                        &&& final(itable)@ == tbl_acquire(old(itable)@, h.slot())
                        &&& if parent {
                            match nm {
                                Some(n) => n@ == path_comps(self@).last(),
                                None => false,
                            }
                        } else {
                            nm is None
                        }
                    },
                    Err(e) => {
                        &&& (res is NotDir ==> e == FsError::NotADirectory)
                        &&& (res is NotFound ==> e == FsError::NotFound)
                        &&& (res is NotDir || res is NotFound)
                        &&& final(itable)@ == old(itable)@
                    },
                }
            }),
    {
        let ghost t0 = itable@;
        let cur = if self.is_absolute() {
            itable.root()
        } else {
            itable.dup(&proc.cwd)
        };
        let ghost t1 = itable@;
        proof {
            assert(same_shape(t0, t1));
            lemma_resolve_same(t0, t1, cur.slot(), path_comps(self@));
        }
        let r = namex_rec(self, cur, parent, tx, itable);
        proof {
            assert(tbl_release(t1, cur.slot()) =~~= t0);
            match r {
                Ok((ref h, _)) => {
                    assert(final(itable)@ == tbl_acquire(t0, h.slot()));
                },
                Err(_) => {},
            }
        }
        r
    }

    /// Looks up and answers a handle on the inode this path names.
    pub fn namei(&self, tx: &Tx, proc: &Proc, itable: &mut InodeTable) -> (r: Result<
        RcInode,
        FsError,
    >)
        requires
            wf(old(itable)@),
            valid_handle(old(itable)@, proc.cwd),
        ensures
            wf(final(itable)@),
            final(itable)@.len() == old(itable)@.len(),
            ({
                let start = start_slot(is_abs(self@), proc.cwd.slot());
                let res = resolve_from(old(itable)@, start, path_comps(self@));
                match r {
                    Ok(h) => {
                        &&& res == Resolution::Found(h.slot())
                        &&& valid_handle(final(itable)@, h)
                        &&& final(itable)@ == tbl_acquire(old(itable)@, h.slot())
                    },
                    Err(e) => {
                        &&& (res is NotDir ==> e == FsError::NotADirectory)
                        &&& (res is NotFound ==> e == FsError::NotFound)
                        &&& (res is NotDir || res is NotFound)
                        &&& final(itable)@ == old(itable)@
                    },
                }
            }),
    {
        match self.namex(false, tx, proc, itable) {
            Ok((h, _)) => Ok(h),
            Err(e) => Err(e),
        }
    }

    /// Looks up the parent directory of what this path names, answering
    /// its handle and the final component. The final component need not
    /// exist; a path without components is refused.
    pub fn nameiparent(&self, tx: &Tx, proc: &Proc, itable: &mut InodeTable) -> (r: Result<
        (RcInode, FileName),
        FsError,
    >)
        requires
            wf(old(itable)@),
            valid_handle(old(itable)@, proc.cwd),
        ensures
            wf(final(itable)@),
            final(itable)@.len() == old(itable)@.len(),
            ({
                let start = start_slot(is_abs(self@), proc.cwd.slot());
                let res = resolve_parent_from(old(itable)@, start, path_comps(self@));
                match r {
                    Ok((h, n)) => {
                        &&& res == Resolution::Found(h.slot())
                        &&& valid_handle(final(itable)@, h)
                        &&& n@ == path_comps(self@).last()
                        &&& final(itable)@ == tbl_acquire(old(itable)@, h.slot())
                    },
                    Err(e) => {
                        &&& (res is NotDir ==> e == FsError::NotADirectory)
                        &&& (res is NotFound ==> e == FsError::NotFound)
                        &&& (res is NotDir || res is NotFound)
                        &&& final(itable)@ == old(itable)@
                    },
                }
            }),
    {
        match self.namex(true, tx, proc, itable) {
            Ok((h, nm)) => match nm {
                Some(n) => Ok((h, n)),
                None => {
                    proof {
                        assert(false);
                    }
                    Err(FsError::NotFound)
                },
            },
            Err(e) => Err(e),
        }
    }
}

} // verus!
