//! The transactional operation orchestrator: the syscall-level operations
//! (create, link, unlink, open, mkdir, mknod, chdir, pipe) built from the
//! resolver and the inode table, each bracketed by one write-transaction
//! scope, with compensating mutations on partial failure.

use vstd::prelude::*;

use crate::error::FsError;
use crate::inode::{
    dir_empty, lemma_lookup_idx, lookup_idx, tbl_acquire, tbl_link, tbl_release, tbl_set_nlink,
    tbl_truncate, tbl_zero_entry, valid_handle, wf, DirentV, InodeTable, InodeType, InodeV,
    RcInode, MAXINUM,
};
use crate::path::{dot_seq, dotdot_seq, path_comps, FileName, Path};
use crate::proc::{
    argfd, file_ok, file_same, file_slot, files_ok, first_free_fd, lemma_first_free_fd, proc_wf,
    FileTable, FileType, Proc, RcFile, NOFILE,
};
use crate::resolve::{
    is_abs, lemma_resolve_same, lemma_resolve_valid, resolve_from, resolve_parent_from, same_shape,
    start_slot, Resolution,
};
use crate::tx::Tx;

verus! {

/// Largest value a link count can hold.
pub const MAXNLINK: u16 = 0xffff;

/// The kernel-owned shared services: the inode table, the file-object
/// layer and the device-major dispatch table, passed to every operation
/// rather than reached as globals.
pub struct Kernel {
    pub itable: InodeTable,
    pub ftable: FileTable,
    /// Which device majors have a registered driver.
    pub devsw: Vec<bool>,
}

/// What an open asks for.
#[derive(Clone, Copy, PartialEq, Eq, Structural, Debug)]
pub struct OpenMode {
    /// Create the file if it does not exist.
    pub create: bool,
    /// Open for both reading and writing.
    pub read_write: bool,
    /// Open for writing only.
    pub write_only: bool,
    /// Discard a regular file's content.
    pub truncate: bool,
}

/// A mode that asks for nothing but reading.
pub open spec fn omode_rdonly(m: OpenMode) -> bool {
    !m.create && !m.read_write && !m.write_only && !m.truncate
}

/// One step down from a link count, pegged at zero.
pub open spec fn dec1(n: u16) -> u16 {
    if n == 0 {
        0
    } else {
        (n - 1) as u16
    }
}

/// An existing entry satisfies a create exactly when a regular file was
/// asked for and the entry is a regular file or a device node.
pub open spec fn reuse_ok(t: Seq<InodeV>, ex: int, typ: InodeType) -> bool {
    typ is File && (t[ex].typ is File || t[ex].typ is Device)
}

/// A fresh create is out of resources: no link-count headroom in the
/// parent for a new directory's "..", or no free inode slot.
pub open spec fn fresh_fail(t: Seq<InodeV>, dp: int, typ: InodeType) -> bool {
    (typ is Dir && t[dp].nlink == MAXNLINK) || t.len() == MAXINUM as int
}

/// The table after creating a fresh inode of type `typ` under name
/// `name` in directory `dp`: the new inode takes the next slot with one
/// link and one handle; a new directory gets its "." and ".." and bumps
/// the parent's link count for the ".."; finally the parent gains the
/// entry.
pub open spec fn create_fresh_post(
    t: Seq<InodeV>,
    dp: int,
    name: Seq<u8>,
    typ: InodeType,
) -> Seq<InodeV> {
    let n = t.len() as int;
    let t1 = t.push(
        InodeV { dev: t[dp].dev, typ, nlink: 1, size: 0, entries: Seq::empty(), refs: 1 },
    );
    let t2 = if typ is Dir {
        tbl_set_nlink(t1, dp, (t[dp].nlink + 1) as u16)
    } else {
        t1
    };
    let t3 = if typ is Dir {
        tbl_link(tbl_link(t2, n, dot_seq(), n as u32), n, dotdot_seq(), dp as u32)
    } else {
        t2
    };
    tbl_link(t3, dp, name, n as u32)
}

/// How a create call turns out.
pub enum CreateRes {
    /// It refuses with this error, mutating nothing.
    Failed(FsError),
    /// It reuses the existing inode in this slot.
    Reuse(int),
    /// It allocates a fresh inode under this parent slot.
    Fresh(int),
}

/// Decides a create call from the table, the working directory, the path
/// and the requested type.
pub open spec fn create_outcome(
    t: Seq<InodeV>,
    cwd: int,
    p: Seq<u8>,
    typ: InodeType,
) -> CreateRes {
    let comps = path_comps(p);
    match resolve_parent_from(t, start_slot(is_abs(p), cwd), comps) {
        Resolution::NotDir => CreateRes::Failed(FsError::NotADirectory),
        Resolution::NotFound => CreateRes::Failed(FsError::NotFound),
        Resolution::Found(dp) => match lookup_idx(t[dp].entries, comps.last()) {
            Some(k) => if reuse_ok(t, t[dp].entries[k].inum as int, typ) {
                CreateRes::Reuse(t[dp].entries[k].inum as int)
            } else {
                CreateRes::Failed(FsError::AlreadyExists)
            },
            None => if fresh_fail(t, dp, typ) {
                CreateRes::Failed(FsError::ResourceExhausted)
            } else {
                CreateRes::Fresh(dp)
            },
        },
    }
}

/// A working directory handle names a real, non-zero inode slot.
pub open spec fn cwd_ok(t: Seq<InodeV>, p: Proc) -> bool {
    1 <= p.cwd.slot() < t.len()
}

impl Kernel {
    /// A fresh kernel: a new inode table holding only the root directory,
    /// a file-object pool of `file_cap` objects, and `ndev` device-major
    /// slots, none of them registered yet.
    pub fn new(ndev: usize, file_cap: u32) -> (r: Kernel)
        ensures
            wf(r.itable@),
            r.itable@.len() == 2,
            r.itable@[1].typ is Dir,
            r.ftable.live == 0,
            r.ftable.cap == file_cap,
            r.devsw@.len() == ndev,
            forall|j: int| 0 <= j < ndev ==> r.devsw@[j] == false,
    {
        let mut devsw: Vec<bool> = Vec::new();
        let mut i: usize = 0;
        while i < ndev
            invariant
                i <= ndev,
                devsw@.len() == i,
                forall|j: int| 0 <= j < i ==> devsw@[j] == false,
            decreases ndev - i,
        {
            devsw.push(false);
            i += 1;
        }
        Kernel { itable: InodeTable::new(), ftable: FileTable::new(file_cap), devsw }
    }

    /// Opens one transaction scope. The scope's durability ordering is
    /// the log collaborator's work; the token only brackets the writes.
    pub fn begin_transaction(&self) -> Tx {
        Tx {}
    }

    /// Creates an inode of the given type at `path`, inside the open
    /// transaction scope. An existing compatible entry is reused; a fresh
    /// inode is linked into the parent, a fresh directory getting its "."
    /// and ".." first. Answers a handle and the resulting inode's type.
    pub fn create(&mut self, path: &Path, typ: InodeType, tx: &Tx, proc: &Proc) -> (r: Result<
        (RcInode, InodeType),
        FsError,
    >)
        requires
            wf(old(self).itable@),
            cwd_ok(old(self).itable@, *proc),
            !(typ is Free),
        ensures
            wf(final(self).itable@),
            final(self).ftable == old(self).ftable,
            final(self).devsw == old(self).devsw,
            ({
                let t = old(self).itable@;
                let oc = create_outcome(t, proc.cwd.slot(), path@, typ);
                match r {
                    Ok((h, ty)) => match oc {
                        CreateRes::Failed(_) => false,
                        CreateRes::Reuse(i) => {
                            &&& h.slot() == i
                            &&& 1 <= i < t.len()
                            &&& ty == t[i].typ
                            &&& final(self).itable@ == tbl_acquire(t, i)
                        },
                        CreateRes::Fresh(dp) => {
                            &&& h.slot() == t.len()
                            &&& 1 <= dp < t.len()
                            &&& ty == typ
                            &&& valid_handle(final(self).itable@, h)
                            &&& final(self).itable@ == create_fresh_post(
                                t,
                                dp,
                                path_comps(path@).last(),
                                typ,
                            )
                        },
                    },
                    Err(e) => {
                        &&& oc == CreateRes::Failed(e)
                        &&& final(self).itable@ == t
                    },
                }
            }),
    {
        let ghost t = self.itable@;
        let (dp, name) = match path.nameiparent(tx, proc, &mut self.itable) {
            Ok(x) => x,
            Err(e) => {
                return Err(e);
            },
        };
        proof {
            lemma_resolve_valid(t, start_slot(is_abs(path@), proc.cwd.slot()), path_comps(path@));
            assert(self.itable@[dp.slot()].typ == t[dp.slot()].typ);
        }
        match self.itable.dirlookup(&dp, &name) {
            Ok((ex, _off)) => {
                self.itable.release(dp, tx);
                let ty = self.itable.typ_of(&ex);
                let compatible = match ty {
                    InodeType::File => true,
                    InodeType::Device { .. } => true,
                    _ => false,
                };
                if typ == InodeType::File && compatible {
                    proof {
                        assert(self.itable@ =~~= tbl_acquire(t, ex.slot()));
                    }
                    Ok((ex, ty))
                } else {
                    self.itable.release(ex, tx);
                    proof {
                        assert(self.itable@ =~~= t);
                    }
                    Err(FsError::AlreadyExists)
                }
            },
            Err(_) => {
                let dpn = self.itable.nlink_of(&dp);
                let isdir = typ == InodeType::Dir;
                if isdir && dpn == MAXNLINK {
                    self.itable.release(dp, tx);
                    proof {
                        assert(self.itable@ =~~= t);
                    }
                    return Err(FsError::ResourceExhausted);
                }
                let dev = self.itable.dev_of(&dp);
                let ip = match self.itable.alloc_inode(dev, typ, tx) {
                    Ok(h) => h,
                    Err(e) => {
                        self.itable.release(dp, tx);
                        proof {
                            assert(self.itable@ =~~= t);
                        }
                        return Err(e);
                    },
                };
                self.itable.set_nlink(&ip, 1, tx);
                if isdir {
                    self.itable.set_nlink(&dp, dpn + 1, tx);
                    let dot = FileName::dot();
                    let dotdot = FileName::dotdot();
                    let ghost before_dot = self.itable@;
                    proof {
                        assert(before_dot[ip.slot()].entries =~= Seq::<DirentV>::empty());
                    }
                    match self.itable.dirlink(&ip, &dot, ip.inum(), tx) {
                        Ok(()) => {},
                        Err(_) => {
                            proof {
                                assert(false);
                            }
                        },
                    }
                    let ghost before_dotdot = self.itable@;
                    proof {
                        let es1 = before_dotdot[ip.slot()].entries;
                        assert(es1 =~= seq![(DirentV { name: dot_seq(), inum: ip.slot() as u32 })]);
                        assert(es1.drop_first().len() == 0);
                        assert(lookup_idx(es1.drop_first(), dotdot_seq()) is None);
                        assert(dot_seq().len() == 1 && dotdot_seq().len() == 2);
                        assert(lookup_idx(es1, dotdot_seq()) is None);
                    }
                    match self.itable.dirlink(&ip, &dotdot, dp.inum(), tx) {
                        Ok(()) => {},
                        Err(_) => {
                            proof {
                                assert(false);
                            }
                        },
                    }
                }
                proof {
                    assert(self.itable@[dp.slot()].entries == t[dp.slot()].entries);
                    assert(self.itable@[dp.slot()].typ is Dir);
                    assert(lookup_idx(self.itable@[dp.slot()].entries, name@) is None);
                }
                match self.itable.dirlink(&dp, &name, ip.inum(), tx) {
                    Ok(()) => {},
                    Err(_) => {
                        proof {
                            assert(false);
                        }
                    },
                }
                self.itable.release(dp, tx);
                proof {
                    assert(self.itable@ =~~= create_fresh_post(
                        t,
                        dp.slot(),
                        path_comps(path@).last(),
                        typ,
                    ));
                }
                Ok((ip, typ))
            },
        }
    }

    /// Creates a new directory at `path`, inside its own transaction.
    pub fn mkdir(&mut self, path: &Path, proc: &Proc) -> (r: Result<(), FsError>)
        requires
            wf(old(self).itable@),
            cwd_ok(old(self).itable@, *proc),
        ensures
            wf(final(self).itable@),
            final(self).ftable == old(self).ftable,
            final(self).devsw == old(self).devsw,
            ({
                let t = old(self).itable@;
                let oc = create_outcome(t, proc.cwd.slot(), path@, InodeType::Dir);
                match r {
                    Ok(()) => match oc {
                        CreateRes::Failed(_) => false,
                        CreateRes::Reuse(i) => final(self).itable@ == t,
                        CreateRes::Fresh(dp) => final(self).itable@ == tbl_release(
                            create_fresh_post(t, dp, path_comps(path@).last(), InodeType::Dir),
                            t.len() as int,
                        ),
                    },
                    Err(e) => {
                        &&& oc == CreateRes::Failed(e)
                        &&& final(self).itable@ == t
                    },
                }
            }),
    {
        let tx = self.begin_transaction();
        let ghost t = self.itable@;
        match self.create(path, InodeType::Dir, &tx, proc) {
            Ok((ip, _ty)) => {
                self.itable.release(ip, &tx);
                proof {
                    match create_outcome(t, proc.cwd.slot(), path@, InodeType::Dir) {
                        CreateRes::Reuse(i) => {
                            assert(self.itable@ =~~= t);
                        },
                        _ => {},
                    }
                }
                Ok(())
            },
            Err(e) => Err(e),
        }
    }

    /// Creates a device node with the given major/minor numbers at
    /// `path`, inside its own transaction.
    pub fn mknod(&mut self, path: &Path, major: u16, minor: u16, proc: &Proc) -> (r: Result<
        (),
        FsError,
    >)
        requires
            wf(old(self).itable@),
            cwd_ok(old(self).itable@, *proc),
        ensures
            wf(final(self).itable@),
            final(self).ftable == old(self).ftable,
            final(self).devsw == old(self).devsw,
            ({
                let t = old(self).itable@;
                let typ = InodeType::Device { major, minor };
                let oc = create_outcome(t, proc.cwd.slot(), path@, typ);
                match r {
                    Ok(()) => match oc {
                        CreateRes::Failed(_) => false,
                        CreateRes::Reuse(i) => final(self).itable@ == t,
                        CreateRes::Fresh(dp) => final(self).itable@ == tbl_release(
                            create_fresh_post(t, dp, path_comps(path@).last(), typ),
                            t.len() as int,
                        ),
                    },
                    Err(e) => {
                        &&& oc == CreateRes::Failed(e)
                        &&& final(self).itable@ == t
                    },
                }
            }),
    {
        let tx = self.begin_transaction();
        let ghost t = self.itable@;
        match self.create(path, InodeType::Device { major, minor }, &tx, proc) {
            Ok((ip, _ty)) => {
                self.itable.release(ip, &tx);
                proof {
                    match create_outcome(
                        t,
                        proc.cwd.slot(),
                        path@,
                        InodeType::Device { major, minor },
                    ) {
                        CreateRes::Reuse(i) => {
                            assert(self.itable@ =~~= t);
                        },
                        _ => {},
                    }
                }
                Ok(())
            },
            Err(e) => Err(e),
        }
    }
}


/// How a link call turns out.
pub enum LinkRes {
    /// It refuses with this error, leaving the table as it was.
    Failed(FsError),
    /// It links target slot and parent slot.
    Linked(int, int),
}

/// Decides a link call from the table, the working directory and the two
/// paths: the old path must name a non-directory with link-count
/// headroom, the new path's parent must resolve on the same device, and
/// the new name must be free.
pub open spec fn link_outcome(t: Seq<InodeV>, cwd: int, oldp: Seq<u8>, newp: Seq<u8>) -> LinkRes {
    match resolve_from(t, start_slot(is_abs(oldp), cwd), path_comps(oldp)) {
        Resolution::NotDir => LinkRes::Failed(FsError::NotADirectory),
        Resolution::NotFound => LinkRes::Failed(FsError::NotFound),
        Resolution::Found(i) => if t[i].typ is Dir {
            LinkRes::Failed(FsError::TypeMismatch)
        } else if t[i].nlink == MAXNLINK {
            LinkRes::Failed(FsError::ResourceExhausted)
        } else {
            match resolve_parent_from(t, start_slot(is_abs(newp), cwd), path_comps(newp)) {
                Resolution::NotDir => LinkRes::Failed(FsError::NotADirectory),
                Resolution::NotFound => LinkRes::Failed(FsError::NotFound),
                Resolution::Found(dp) => if t[dp].dev != t[i].dev {
                    LinkRes::Failed(FsError::CrossDevice)
                } else {
                    match lookup_idx(t[dp].entries, path_comps(newp).last()) {
                        Some(_) => LinkRes::Failed(FsError::AlreadyExists),
                        None => LinkRes::Linked(i, dp),
                    }
                },
            }
        },
    }
}

/// The table after linking slot `i` under `name` in directory `dp`: one
/// more link on the target, one more record in the parent.
pub open spec fn link_post(t: Seq<InodeV>, i: int, dp: int, name: Seq<u8>) -> Seq<InodeV> {
    tbl_link(tbl_set_nlink(t, i, (t[i].nlink + 1) as u16), dp, name, i as u32)
}

/// How an unlink call turns out.
pub enum UnlinkRes {
    /// It refuses with this error, leaving the table as it was.
    Failed(FsError),
    /// It clears record `off` of parent slot and drops target slot's
    /// link: parent, record offset, target.
    Unlinked(int, int, int),
}

/// Decides an unlink call: the parent must resolve, the name must not be
/// reserved, the entry must exist, and a directory target must hold
/// nothing beyond its first two records.
pub open spec fn unlink_outcome(t: Seq<InodeV>, cwd: int, p: Seq<u8>) -> UnlinkRes {
    let comps = path_comps(p);
    match resolve_parent_from(t, start_slot(is_abs(p), cwd), comps) {
        Resolution::NotDir => UnlinkRes::Failed(FsError::NotADirectory),
        Resolution::NotFound => UnlinkRes::Failed(FsError::NotFound),
        Resolution::Found(dp) => {
            let name = comps.last();
            if name == dot_seq() || name == dotdot_seq() {
                UnlinkRes::Failed(FsError::InvalidName)
            } else {
                match lookup_idx(t[dp].entries, name) {
                    None => UnlinkRes::Failed(FsError::NotFound),
                    Some(off) => {
                        let i = t[dp].entries[off].inum as int;
                        if t[i].typ is Dir && !dir_empty(t[i].entries) {
                            UnlinkRes::Failed(FsError::NotEmpty)
                        } else {
                            UnlinkRes::Unlinked(dp, off, i)
                        }
                    },
                }
            }
        },
    }
}

/// The table after unlinking: the parent's record is zeroed, the parent
/// loses the ".." link when the target was a directory, and the target
/// loses one link. The decrements peg at zero.
pub open spec fn unlink_post(t: Seq<InodeV>, dp: int, off: int, i: int) -> Seq<InodeV> {
    let t1 = tbl_zero_entry(t, dp, off);
    let t2 = if t[i].typ is Dir {
        tbl_set_nlink(t1, dp, dec1(t[dp].nlink))
    } else {
        t1
    };
    tbl_set_nlink(t2, i, dec1(t[i].nlink))
}

impl Kernel {
    /// Creates `new_path` as another name for the inode `old_path`
    /// names, inside its own transaction. Directories cannot be linked;
    /// a failure after the link count was raised lowers it back before
    /// reporting.
    pub fn link(&mut self, old_path: &Path, new_path: &Path, proc: &Proc) -> (r: Result<
        (),
        FsError,
    >)
        requires
            wf(old(self).itable@),
            cwd_ok(old(self).itable@, *proc),
        ensures
            wf(final(self).itable@),
            final(self).ftable == old(self).ftable,
            final(self).devsw == old(self).devsw,
            ({
                let t = old(self).itable@;
                let oc = link_outcome(t, proc.cwd.slot(), old_path@, new_path@);
                match r {
                    Ok(()) => match oc {
                        LinkRes::Failed(_) => false,
                        LinkRes::Linked(i, dp) => final(self).itable@ == link_post(
                            t,
                            i,
                            dp,
                            path_comps(new_path@).last(),
                        ),
                    },
                    Err(e) => {
                        &&& oc == LinkRes::Failed(e)
                        &&& final(self).itable@ == t
                    },
                }
            }),
    {
        let tx = self.begin_transaction();
        let ghost t = self.itable@;
        let ip = match old_path.namei(&tx, proc, &mut self.itable) {
            Ok(h) => h,
            Err(e) => {
                return Err(e);
            },
        };
        proof {
            lemma_resolve_valid(
                t,
                start_slot(is_abs(old_path@), proc.cwd.slot()),
                path_comps(old_path@),
            );
        }
        let ty = self.itable.typ_of(&ip);
        if ty == InodeType::Dir {
            self.itable.release(ip, &tx);
            proof {
                assert(self.itable@ =~~= t);
            }
            return Err(FsError::TypeMismatch);
        }
        let n = self.itable.nlink_of(&ip);
        if n == MAXNLINK {
            self.itable.release(ip, &tx);
            proof {
                assert(self.itable@ =~~= t);
            }
            return Err(FsError::ResourceExhausted);
        }
        self.itable.set_nlink(&ip, n + 1, &tx);
        let ghost t_inc = self.itable@;
        proof {
            assert(same_shape(t, t_inc));
            lemma_resolve_same(
                t,
                t_inc,
                start_slot(is_abs(new_path@), proc.cwd.slot()),
                path_comps(new_path@),
            );
        }
        match new_path.nameiparent(&tx, proc, &mut self.itable) {
            Ok((dp, name)) => {
                proof {
                    lemma_resolve_valid(
                        t,
                        start_slot(is_abs(new_path@), proc.cwd.slot()),
                        path_comps(new_path@),
                    );
                    assert(self.itable@[dp.slot()].typ == t[dp.slot()].typ);
                    assert(self.itable@[dp.slot()].entries == t[dp.slot()].entries);
                }
                let ddev = self.itable.dev_of(&dp);
                let idev = self.itable.dev_of(&ip);
                if ddev != idev {
                    self.itable.set_nlink(&ip, n, &tx);
                    self.itable.release(dp, &tx);
                    self.itable.release(ip, &tx);
                    proof {
                        assert(self.itable@ =~~= t);
                    }
                    return Err(FsError::CrossDevice);
                }
                match self.itable.dirlink(&dp, &name, ip.inum(), &tx) {
                    Ok(()) => {
                        self.itable.release(dp, &tx);
                        self.itable.release(ip, &tx);
                        proof {
                            assert(self.itable@ =~~= link_post(
                                t,
                                ip.slot(),
                                dp.slot(),
                                path_comps(new_path@).last(),
                            ));
                        }
                        Ok(())
                    },
                    Err(_) => {
                        self.itable.set_nlink(&ip, n, &tx);
                        self.itable.release(dp, &tx);
                        self.itable.release(ip, &tx);
                        proof {
                            assert(self.itable@ =~~= t);
                        }
                        Err(FsError::AlreadyExists)
                    },
                }
            },
            Err(e) => {
                self.itable.set_nlink(&ip, n, &tx);
                self.itable.release(ip, &tx);
                proof {
                    assert(self.itable@ =~~= t);
                }
                Err(e)
            },
        }
    }

    /// Removes the entry `path` names from its parent directory, inside
    /// its own transaction. "." and ".." are refused; a directory must
    /// be empty; a refusal mutates nothing.
    pub fn unlink(&mut self, path: &Path, proc: &Proc) -> (r: Result<(), FsError>)
        requires
            wf(old(self).itable@),
            cwd_ok(old(self).itable@, *proc),
        ensures
            wf(final(self).itable@),
            final(self).ftable == old(self).ftable,
            final(self).devsw == old(self).devsw,
            ({
                let t = old(self).itable@;
                let oc = unlink_outcome(t, proc.cwd.slot(), path@);
                match r {
                    Ok(()) => match oc {
                        UnlinkRes::Failed(_) => false,
                        UnlinkRes::Unlinked(dp, off, i) => final(self).itable@ == unlink_post(
                            t,
                            dp,
                            off,
                            i,
                        ),
                    },
                    Err(e) => {
                        &&& oc == UnlinkRes::Failed(e)
                        &&& final(self).itable@ == t
                    },
                }
            }),
    {
        let tx = self.begin_transaction();
        let ghost t = self.itable@;
        let (dp, name) = match path.nameiparent(&tx, proc, &mut self.itable) {
            Ok(x) => x,
            Err(e) => {
                return Err(e);
            },
        };
        proof {
            lemma_resolve_valid(t, start_slot(is_abs(path@), proc.cwd.slot()), path_comps(path@));
            assert(self.itable@[dp.slot()].typ == t[dp.slot()].typ);
            assert(self.itable@[dp.slot()].entries == t[dp.slot()].entries);
        }
        let dot = FileName::dot();
        let dotdot = FileName::dotdot();
        if crate::path::bytes_eq(name.as_bytes(), dot.as_bytes()) || crate::path::bytes_eq(
            name.as_bytes(),
            dotdot.as_bytes(),
        ) {
            self.itable.release(dp, &tx);
            proof {
                assert(self.itable@ =~~= t);
            }
            return Err(FsError::InvalidName);
        }
        match self.itable.dirlookup(&dp, &name) {
            Err(_) => {
                self.itable.release(dp, &tx);
                proof {
                    assert(self.itable@ =~~= t);
                }
                Err(FsError::NotFound)
            },
            Ok((ip, off)) => {
                proof {
                    lemma_lookup_idx(t[dp.slot()].entries, name@);
                    assert(self.itable@[ip.slot()].typ == t[ip.slot()].typ);
                    assert(self.itable@[ip.slot()].entries == t[ip.slot()].entries);
                }
                let ity = self.itable.typ_of(&ip);
                if ity == InodeType::Dir && !self.itable.is_dir_empty(&ip) {
                    self.itable.release(ip, &tx);
                    self.itable.release(dp, &tx);
                    proof {
                        assert(self.itable@ =~~= t);
                    }
                    return Err(FsError::NotEmpty);
                }
                let ipn = self.itable.nlink_of(&ip);
                let dpn = self.itable.nlink_of(&dp);
                self.itable.zero_entry(&dp, off, &tx);
                if ity == InodeType::Dir {
                    self.itable.set_nlink(
                        &dp,
                        if dpn > 0 {
                            dpn - 1
                        } else {
                            0
                        },
                        &tx,
                    );
                }
                self.itable.set_nlink(
                    &ip,
                    if ipn > 0 {
                        ipn - 1
                    } else {
                        0
                    },
                    &tx,
                );
                self.itable.release(dp, &tx);
                self.itable.release(ip, &tx);
                proof {
                    assert(self.itable@ =~~= unlink_post(t, dp.slot(), off as int, ip.slot()));
                }
                Ok(())
            },
        }
    }
}


/// The first stage of an open: how the inode is obtained.
pub enum OpenStage1 {
    /// No inode: this error, nothing changed.
    Fail(FsError),
    /// Inode slot, and the table holding one handle on it.
    Got(int, Seq<InodeV>),
}

/// Obtains the inode for an open: through a regular-file create when the
/// mode asks to create, else by plain resolution, refusing a write-intent
/// open of a directory.
pub open spec fn open_stage1(t: Seq<InodeV>, cwd: int, p: Seq<u8>, m: OpenMode) -> OpenStage1 {
    if m.create {
        match create_outcome(t, cwd, p, InodeType::File) {
            CreateRes::Failed(e) => OpenStage1::Fail(e),
            CreateRes::Reuse(i) => OpenStage1::Got(i, tbl_acquire(t, i)),
            CreateRes::Fresh(dp) => OpenStage1::Got(
                t.len() as int,
                create_fresh_post(t, dp, path_comps(p).last(), InodeType::File),
            ),
        }
    } else {
        match resolve_from(t, start_slot(is_abs(p), cwd), path_comps(p)) {
            Resolution::NotDir => OpenStage1::Fail(FsError::NotADirectory),
            Resolution::NotFound => OpenStage1::Fail(FsError::NotFound),
            Resolution::Found(i) => if t[i].typ is Dir && !omode_rdonly(m) {
                OpenStage1::Fail(FsError::NotADirectory)
            } else {
                OpenStage1::Got(i, tbl_acquire(t, i))
            },
        }
    }
}

/// A device type is serviceable exactly when its major has a registered
/// driver.
pub open spec fn devsw_ok(devsw: Seq<bool>, ty: InodeType) -> bool {
    match ty {
        InodeType::Device { major, .. } => major < devsw.len() && devsw[major as int],
        _ => true,
    }
}

/// How an open call turns out.
pub enum OpenRes {
    /// The inode could not be obtained: this error, nothing changed.
    Failed0(FsError),
    /// No driver for the device, or no free file object: the obtained
    /// handle is released, leaving this table.
    FailedPre(int, Seq<InodeV>),
    /// No free descriptor: the file is closed again, leaving this table
    /// (a requested truncation has already happened).
    FailedFd(int, Seq<InodeV>),
    /// Success: inode slot, descriptor, resulting table.
    Opened(int, int, Seq<InodeV>),
}

/// Decides an open call from the table, the file-object pool, the
/// device table, the descriptor table, the working directory, the path
/// and the mode.
pub open spec fn open_outcome(
    t: Seq<InodeV>,
    live: u32,
    cap: u32,
    devsw: Seq<bool>,
    fds: Seq<Option<RcFile>>,
    cwd: int,
    p: Seq<u8>,
    m: OpenMode,
) -> OpenRes {
    match open_stage1(t, cwd, p, m) {
        OpenStage1::Fail(e) => OpenRes::Failed0(e),
        OpenStage1::Got(i, t1) => if !devsw_ok(devsw, t1[i].typ) {
            OpenRes::FailedPre(i, tbl_release(t1, i))
        } else if live >= cap {
            OpenRes::FailedPre(i, tbl_release(t1, i))
        } else {
            let t2 = if m.truncate && t1[i].typ is File {
                tbl_truncate(t1, i)
            } else {
                t1
            };
            match first_free_fd(fds) {
                None => OpenRes::FailedFd(i, tbl_release(t2, i)),
                Some(fd) => OpenRes::Opened(i, fd, t2),
            }
        },
    }
}

/// The file object an open binds: its rights follow the mode, and it
/// carries a handle on the opened inode, dispatched by the inode's type.
pub open spec fn opened_file_ok(f: RcFile, i: int, ty: InodeType, m: OpenMode) -> bool {
    &&& f.readable == !m.write_only
    &&& f.writable == (m.write_only || m.read_write)
    &&& match ty {
        InodeType::Device { major, .. } => f.typ matches FileType::Device { ip, major: mj }
            && ip.slot() == i && mj == major,
        _ => f.typ matches FileType::Inode { ip } && ip.slot() == i,
    }
}

impl Kernel {
    /// Clears descriptor `fd` of the calling process, closing the file
    /// object that was bound there, if any.
    fn drop_fd(&mut self, proc: &mut Proc, fd: i32, tx: &Tx)
        requires
            wf(old(self).itable@),
            crate::proc::proc_wf(*old(proc)),
            0 <= fd < NOFILE,
            match old(proc).open_files@[fd as int] {
                Some(f) => file_ok(old(self).itable@, f),
                None => true,
            },
        ensures
            wf(final(self).itable@),
            crate::proc::proc_wf(*final(proc)),
            final(proc).cwd == old(proc).cwd,
            final(proc).mem == old(proc).mem,
            final(proc).open_files@ == old(proc).open_files@.update(fd as int, None),
            final(self).ftable.cap == old(self).ftable.cap,
            final(self).devsw == old(self).devsw,
            match old(proc).open_files@[fd as int] {
                Some(f) => {
                    &&& final(self).ftable.live == if old(self).ftable.live > 0 {
                        (old(self).ftable.live - 1) as u32
                    } else {
                        0
                    }
                    &&& final(self).itable@ == match file_slot(f) {
                        Some(s) => tbl_release(old(self).itable@, s),
                        None => old(self).itable@,
                    }
                },
                None => {
                    &&& final(self).ftable.live == old(self).ftable.live
                    &&& final(self).itable@ == old(self).itable@
                },
            },
    {
        let prev = proc.open_files.remove(fd as usize);
        proc.open_files.insert(fd as usize, None);
        proof {
            assert(proc.open_files@ =~= old(proc).open_files@.update(fd as int, None));
        }
        match prev {
            Some(file) => {
                self.ftable.close_file(file, &mut self.itable, tx);
            },
            None => {},
        }
    }

    /// Opens `path` with the given mode, inside its own transaction:
    /// creates a regular file first when asked to, builds a device- or
    /// inode-backed file object, truncates a regular file when asked to,
    /// and binds the file into the caller's descriptor table.
    pub fn open(&mut self, path: &Path, omode: OpenMode, proc: &mut Proc) -> (r: Result<
        usize,
        FsError,
    >)
        requires
            wf(old(self).itable@),
            cwd_ok(old(self).itable@, *old(proc)),
            crate::proc::proc_wf(*old(proc)),
        ensures
            wf(final(self).itable@),
            crate::proc::proc_wf(*final(proc)),
            final(proc).cwd == old(proc).cwd,
            final(proc).mem == old(proc).mem,
            final(self).ftable.cap == old(self).ftable.cap,
            final(self).devsw == old(self).devsw,
            ({
                let t = old(self).itable@;
                let oc = open_outcome(
                    t,
                    old(self).ftable.live,
                    old(self).ftable.cap,
                    old(self).devsw@,
                    old(proc).open_files@,
                    old(proc).cwd.slot(),
                    path@,
                    omode,
                );
                match r {
                    Ok(fd) => match oc {
                        OpenRes::Opened(i, fdx, t2) => {
                            &&& fd as int == fdx
                            &&& final(self).itable@ == t2
                            &&& final(self).ftable.live == old(self).ftable.live + 1
                            &&& final(proc).open_files@.len() == NOFILE as int
                            &&& (forall|j: int|
                                0 <= j < NOFILE && j != fdx ==> final(proc).open_files@[j] == old(
                                    proc,
                                ).open_files@[j])
                            &&& match final(proc).open_files@[fdx] {
                                Some(f) => opened_file_ok(f, i, t2[i].typ, omode),
                                None => false,
                            }
                        },
                        _ => false,
                    },
                    Err(e) => match oc {
                        OpenRes::Failed0(e0) => {
                            &&& e == e0
                            &&& final(self).itable@ == t
                            &&& final(self).ftable.live == old(self).ftable.live
                            &&& final(proc).open_files@ == old(proc).open_files@
                        },
                        OpenRes::FailedPre(_, tf) => {
                            &&& e == FsError::ResourceExhausted
                            &&& final(self).itable@ == tf
                            &&& final(self).ftable.live == old(self).ftable.live
                            &&& final(proc).open_files@ == old(proc).open_files@
                        },
                        OpenRes::FailedFd(_, tf) => {
                            &&& e == FsError::ResourceExhausted
                            &&& final(self).itable@ == tf
                            &&& final(self).ftable.live == old(self).ftable.live
                            &&& final(proc).open_files@ == old(proc).open_files@
                        },
                        OpenRes::Opened(..) => false,
                    },
                }
            }),
    {
        let tx = self.begin_transaction();
        let ghost t = self.itable@;
        let (ip, ty) = if omode.create {
            match self.create(path, InodeType::File, &tx, proc) {
                Ok(x) => x,
                Err(e) => {
                    return Err(e);
                },
            }
        } else {
            let h = match path.namei(&tx, proc, &mut self.itable) {
                Ok(h) => h,
                Err(e) => {
                    return Err(e);
                },
            };
            proof {
                lemma_resolve_valid(
                    t,
                    start_slot(is_abs(path@), proc.cwd.slot()),
                    path_comps(path@),
                );
            }
            let hty = self.itable.typ_of(&h);
            let rdonly = !omode.create && !omode.read_write && !omode.write_only
                && !omode.truncate;
            if hty == InodeType::Dir && !rdonly {
                self.itable.release(h, &tx);
                proof {
                    assert(self.itable@ =~~= t);
                }
                return Err(FsError::NotADirectory);
            }
            (h, hty)
        };
        let ghost t1 = self.itable@;
        let ghost i = ip.slot();
        proof {
            assert(open_stage1(t, old(proc).cwd.slot(), path@, omode) == OpenStage1::Got(i, t1));
            assert(t1[i].typ == ty);
            assert(0 <= i < t1.len());
        }
        let devok = match ty {
            InodeType::Device { major, .. } => {
                let mu = major as usize;
                mu < self.devsw.len() && self.devsw[mu]
            },
            _ => true,
        };
        if !devok {
            self.itable.release(ip, &tx);
            return Err(FsError::ResourceExhausted);
        }
        if self.ftable.live >= self.ftable.cap {
            self.itable.release(ip, &tx);
            return Err(FsError::ResourceExhausted);
        }
        let ftyp = match ty {
            InodeType::Device { major, .. } => FileType::Device { ip, major },
            _ => FileType::Inode { ip },
        };
        let readable = !omode.write_only;
        let writable = omode.write_only || omode.read_write;
        let f = match self.ftable.alloc_file(ftyp, readable, writable) {
            Ok(f) => f,
            Err(_) => vstd::pervasive::unreached(),
        };
        if omode.truncate && ty == InodeType::File {
            match &f.typ {
                FileType::Device { ip: hh, .. } => self.itable.truncate(hh, &tx),
                FileType::Inode { ip: hh } => self.itable.truncate(hh, &tx),
                FileType::Pipe => {},
            }
        }
        match f.fdalloc(proc) {
            Ok(fd) => Ok(fd as usize),
            Err(f2) => {
                self.ftable.close_file(f2, &mut self.itable, &tx);
                Err(FsError::ResourceExhausted)
            },
        }
    }

    /// Makes `path` the caller's working directory, inside its own
    /// transaction: the path must name a directory; the previous working
    /// directory handle is released under the scope, since its
    /// write-back may touch the disk.
    pub fn chdir(&mut self, path: &Path, proc: &mut Proc) -> (r: Result<(), FsError>)
        requires
            wf(old(self).itable@),
            cwd_ok(old(self).itable@, *old(proc)),
        ensures
            wf(final(self).itable@),
            final(self).ftable == old(self).ftable,
            final(self).devsw == old(self).devsw,
            final(proc).open_files == old(proc).open_files,
            final(proc).mem == old(proc).mem,
            ({
                let t = old(self).itable@;
                let res = resolve_from(
                    t,
                    start_slot(is_abs(path@), old(proc).cwd.slot()),
                    path_comps(path@),
                );
                match r {
                    Ok(()) => {
                        &&& res == Resolution::Found(final(proc).cwd.slot())
                        &&& t[final(proc).cwd.slot()].typ is Dir
                        &&& cwd_ok(final(self).itable@, *final(proc))
                        &&& final(self).itable@ == tbl_release(
                            tbl_acquire(t, final(proc).cwd.slot()),
                            old(proc).cwd.slot(),
                        )
                    },
                    Err(e) => {
                        &&& final(self).itable@ == t
                        &&& final(proc).cwd == old(proc).cwd
                        &&& (res is NotDir ==> e == FsError::NotADirectory)
                        &&& (res is NotFound ==> e == FsError::NotFound)
                        &&& (forall|i: int|
                            res == Resolution::Found(i) ==> !(t[i].typ is Dir) && e
                                == FsError::NotADirectory)
                    },
                }
            }),
    {
        let tx = self.begin_transaction();
        let ghost t = self.itable@;
        let h = match path.namei(&tx, proc, &mut self.itable) {
            Ok(h) => h,
            Err(e) => {
                return Err(e);
            },
        };
        proof {
            lemma_resolve_valid(t, start_slot(is_abs(path@), proc.cwd.slot()), path_comps(path@));
        }
        let ty = self.itable.typ_of(&h);
        if ty != InodeType::Dir {
            self.itable.release(h, &tx);
            proof {
                assert(self.itable@ =~~= t);
            }
            return Err(FsError::NotADirectory);
        }
        let mut prev = h;
        core::mem::swap(&mut proc.cwd, &mut prev);
        self.itable.release(prev, &tx);
        Ok(())
    }

    /// Allocates a connected pipe, binds its reader and writer to two
    /// descriptors, and copies the two descriptor numbers out to user
    /// words `fdarray` and `fdarray + 1`. A failure at any step unbinds
    /// whatever was bound and releases both file objects.
    pub fn pipe(&mut self, fdarray: usize, proc: &mut Proc) -> (r: Result<(), FsError>)
        requires
            wf(old(self).itable@),
            crate::proc::proc_wf(*old(proc)),
        ensures
            wf(final(self).itable@),
            crate::proc::proc_wf(*final(proc)),
            final(self).itable@ == old(self).itable@,
            final(self).ftable.cap == old(self).ftable.cap,
            final(self).devsw == old(self).devsw,
            final(proc).cwd == old(proc).cwd,
            ({
                let fds = old(proc).open_files@;
                let live = old(self).ftable.live;
                let cap = old(self).ftable.cap;
                let mem = old(proc).mem.words@;
                let reader = (RcFile { typ: FileType::Pipe, readable: true, writable: false });
                let writer = (RcFile { typ: FileType::Pipe, readable: false, writable: true });
                let unchanged = {
                    &&& final(self).ftable.live == live
                    &&& final(proc).open_files@ == fds
                    &&& final(proc).mem.words@ == mem
                };
                if live + 2 > cap {
                    r == Err::<(), FsError>(FsError::ResourceExhausted) && unchanged
                } else {
                    match first_free_fd(fds) {
                        None => r == Err::<(), FsError>(FsError::ResourceExhausted) && unchanged,
                        Some(fd0) => {
                            let fds1 = fds.update(fd0, Some(reader));
                            match first_free_fd(fds1) {
                                None => r == Err::<(), FsError>(FsError::ResourceExhausted)
                                    && unchanged,
                                Some(fd1) => if fdarray >= mem.len() {
                                    r == Err::<(), FsError>(FsError::Fault) && unchanged
                                } else if fdarray + 1 >= mem.len() {
                                    &&& r == Err::<(), FsError>(FsError::Fault)
                                    &&& final(self).ftable.live == live
                                    &&& final(proc).open_files@ == fds
                                    &&& final(proc).mem.words@ == mem.update(
                                        fdarray as int,
                                        fd0 as i32,
                                    )
                                } else {
                                    &&& r == Ok::<(), FsError>(())
                                    &&& final(self).ftable.live == live + 2
                                    &&& final(proc).open_files@ == fds1.update(fd1, Some(writer))
                                    &&& final(proc).mem.words@ == mem.update(
                                        fdarray as int,
                                        fd0 as i32,
                                    ).update(fdarray + 1, fd1 as i32)
                                },
                            }
                        },
                    }
                }
            }),
    {
        let tx = self.begin_transaction();
        let ghost fds = proc.open_files@;
        let (rd, wr) = match self.ftable.allocate_pipe() {
            Ok(x) => x,
            Err(e) => {
                return Err(e);
            },
        };
        let fd0 = match rd.fdalloc(proc) {
            Ok(fd) => fd,
            Err(rf) => {
                self.ftable.close_file(rf, &mut self.itable, &tx);
                self.ftable.close_file(wr, &mut self.itable, &tx);
                return Err(FsError::ResourceExhausted);
            },
        };
        proof {
            lemma_first_free_fd(fds);
        }
        let ghost fds1 = proc.open_files@;
        let fd1 = match wr.fdalloc(proc) {
            Ok(fd) => fd,
            Err(wrb) => {
                self.drop_fd(proc, fd0, &tx);
                self.ftable.close_file(wrb, &mut self.itable, &tx);
                proof {
                    assert(proc.open_files@ =~= fds);
                }
                return Err(FsError::ResourceExhausted);
            },
        };
        proof {
            lemma_first_free_fd(fds1);
        }
        if let Err(e) = proc.mem.copy_out(fdarray, fd0) {
            self.drop_fd(proc, fd0, &tx);
            self.drop_fd(proc, fd1, &tx);
            proof {
                assert(proc.open_files@ =~= fds);
            }
            return Err(e);
        }
        if let Err(e) = proc.mem.copy_out(fdarray + 1, fd1) {
            self.drop_fd(proc, fd0, &tx);
            self.drop_fd(proc, fd1, &tx);
            proof {
                assert(proc.open_files@ =~= fds);
            }
            return Err(e);
        }
        Ok(())
    }
}


impl Kernel {
    /// Returns a new descriptor referring to the same open file as `fd`.
    /// Failures follow the single negative-return convention.
    pub fn sys_dup(&mut self, proc: &mut Proc, fd: i32) -> (r: Result<usize, ()>)
        requires
            wf(old(self).itable@),
            proc_wf(*old(proc)),
            files_ok(old(self).itable@, old(proc).open_files@),
        ensures
            wf(final(self).itable@),
            proc_wf(*final(proc)),
            final(proc).cwd == old(proc).cwd,
            final(proc).mem == old(proc).mem,
            final(self).ftable.cap == old(self).ftable.cap,
            final(self).devsw == old(self).devsw,
            ({
                let t = old(self).itable@;
                let fds = old(proc).open_files@;
                let live = old(self).ftable.live;
                let cap = old(self).ftable.cap;
                match r {
                    Ok(nfd) => {
                        &&& 0 <= fd < NOFILE
                        &&& fds[fd as int] is Some
                        &&& live < cap
                        &&& first_free_fd(fds) == Some(nfd as int)
                        &&& final(self).ftable.live == live + 1
                        &&& final(proc).open_files@.len() == NOFILE as int
                        &&& (forall|j: int|
                            0 <= j < NOFILE && j != nfd ==> final(proc).open_files@[j] == fds[j])
                        &&& match (fds[fd as int], final(proc).open_files@[nfd as int]) {
                            (Some(f0), Some(g)) => file_same(f0, g) && final(self).itable@
                                == match file_slot(f0) {
                                Some(s) => tbl_acquire(t, s),
                                None => t,
                            },
                            _ => false,
                        }
                    },
                    Err(()) => {
                        &&& !(0 <= fd < NOFILE && fds[fd as int] is Some && live < cap
                            && first_free_fd(fds) is Some)
                        &&& final(self).itable@ == t
                        &&& final(self).ftable.live == live
                        &&& final(proc).open_files@ == fds
                    },
                }
            }),
    {
        let ghost t = self.itable@;
        let g = {
            let f = match argfd(proc, fd) {
                Ok(f) => f,
                Err(_) => {
                    return Err(());
                },
            };
            match self.ftable.dup_file(f, &mut self.itable) {
                Ok(g) => g,
                Err(_) => {
                    return Err(());
                },
            }
        };
        let tx = self.begin_transaction();
        match g.fdalloc(proc) {
            Ok(nfd) => Ok(nfd as usize),
            Err(g2) => {
                self.ftable.close_file(g2, &mut self.itable, &tx);
                proof {
                    assert(self.itable@ =~~= t);
                }
                Err(())
            },
        }
    }

    /// Releases open descriptor `fd`, closing the file bound there.
    pub fn sys_close(&mut self, proc: &mut Proc, fd: i32) -> (r: Result<usize, ()>)
        requires
            wf(old(self).itable@),
            proc_wf(*old(proc)),
            files_ok(old(self).itable@, old(proc).open_files@),
        ensures
            wf(final(self).itable@),
            proc_wf(*final(proc)),
            final(proc).cwd == old(proc).cwd,
            final(proc).mem == old(proc).mem,
            final(self).ftable.cap == old(self).ftable.cap,
            final(self).devsw == old(self).devsw,
            ({
                let t = old(self).itable@;
                let fds = old(proc).open_files@;
                match r {
                    Ok(z) => {
                        &&& z == 0
                        &&& 0 <= fd < NOFILE
                        &&& final(proc).open_files@ == fds.update(fd as int, None)
                        &&& match fds[fd as int] {
                            Some(f) => {
                                &&& final(self).ftable.live == if old(self).ftable.live > 0 {
                                    (old(self).ftable.live - 1) as u32
                                } else {
                                    0
                                }
                                &&& final(self).itable@ == match file_slot(f) {
                                    Some(s) => tbl_release(t, s),
                                    None => t,
                                }
                            },
                            None => false,
                        }
                    },
                    Err(()) => {
                        &&& (fd < 0 || fd >= NOFILE || fds[fd as int] is None)
                        &&& final(self).itable@ == t
                        &&& final(self).ftable.live == old(self).ftable.live
                        &&& final(proc).open_files@ == fds
                    },
                }
            }),
    {
        if fd < 0 || fd >= 16 {
            return Err(());
        }
        match &proc.open_files[fd as usize] {
            None => {
                return Err(());
            },
            Some(_) => {},
        }
        let tx = self.begin_transaction();
        self.drop_fd(proc, fd, &tx);
        Ok(0)
    }

    /// Creates `new_path` as another name for what `old_path` names.
    pub fn sys_link(&mut self, old_path: &Path, new_path: &Path, proc: &Proc) -> (r: Result<
        usize,
        (),
    >)
        requires
            wf(old(self).itable@),
            cwd_ok(old(self).itable@, *proc),
        ensures
            wf(final(self).itable@),
            final(self).ftable == old(self).ftable,
            final(self).devsw == old(self).devsw,
            ({
                let t = old(self).itable@;
                let oc = link_outcome(t, proc.cwd.slot(), old_path@, new_path@);
                match r {
                    Ok(z) => {
                        &&& z == 0
                        &&& match oc {
                            LinkRes::Linked(i, dp) => final(self).itable@ == link_post(
                                t,
                                i,
                                dp,
                                path_comps(new_path@).last(),
                            ),
                            LinkRes::Failed(_) => false,
                        }
                    },
                    Err(()) => {
                        &&& oc matches LinkRes::Failed(_)
                        &&& final(self).itable@ == t
                    },
                }
            }),
    {
        match self.link(old_path, new_path, proc) {
            Ok(()) => Ok(0),
            Err(_) => Err(()),
        }
    }

    /// Removes the name `path` from its parent directory.
    pub fn sys_unlink(&mut self, path: &Path, proc: &Proc) -> (r: Result<usize, ()>)
        requires
            wf(old(self).itable@),
            cwd_ok(old(self).itable@, *proc),
        ensures
            wf(final(self).itable@),
            final(self).ftable == old(self).ftable,
            final(self).devsw == old(self).devsw,
            ({
                let t = old(self).itable@;
                let oc = unlink_outcome(t, proc.cwd.slot(), path@);
                match r {
                    Ok(z) => {
                        &&& z == 0
                        &&& match oc {
                            UnlinkRes::Unlinked(dp, off, i) => final(self).itable@ == unlink_post(
                                t,
                                dp,
                                off,
                                i,
                            ),
                            UnlinkRes::Failed(_) => false,
                        }
                    },
                    Err(()) => {
                        &&& oc matches UnlinkRes::Failed(_)
                        &&& final(self).itable@ == t
                    },
                }
            }),
    {
        match self.unlink(path, proc) {
            Ok(()) => Ok(0),
            Err(_) => Err(()),
        }
    }

    /// Opens `path` with the given mode and returns the new descriptor.
    pub fn sys_open(&mut self, path: &Path, omode: OpenMode, proc: &mut Proc) -> (r: Result<
        usize,
        (),
    >)
        requires
            wf(old(self).itable@),
            cwd_ok(old(self).itable@, *old(proc)),
            proc_wf(*old(proc)),
        ensures
            wf(final(self).itable@),
            proc_wf(*final(proc)),
            final(proc).cwd == old(proc).cwd,
            final(proc).mem == old(proc).mem,
            final(self).ftable.cap == old(self).ftable.cap,
            final(self).devsw == old(self).devsw,
            ({
                let t = old(self).itable@;
                let oc = open_outcome(
                    t,
                    old(self).ftable.live,
                    old(self).ftable.cap,
                    old(self).devsw@,
                    old(proc).open_files@,
                    old(proc).cwd.slot(),
                    path@,
                    omode,
                );
                match r {
                    Ok(fd) => match oc {
                        OpenRes::Opened(i, fdx, t2) => {
                            &&& fd as int == fdx
                            &&& final(self).itable@ == t2
                            &&& final(self).ftable.live == old(self).ftable.live + 1
                            &&& final(proc).open_files@.len() == NOFILE as int
                            &&& (forall|j: int|
                                0 <= j < NOFILE && j != fdx ==> final(proc).open_files@[j] == old(
                                    proc,
                                ).open_files@[j])
                            &&& match final(proc).open_files@[fdx] {
                                Some(f) => opened_file_ok(f, i, t2[i].typ, omode),
                                None => false,
                            }
                        },
                        _ => false,
                    },
                    Err(()) => match oc {
                        OpenRes::Failed0(_) => {
                            &&& final(self).itable@ == t
                            &&& final(self).ftable.live == old(self).ftable.live
                            &&& final(proc).open_files@ == old(proc).open_files@
                        },
                        OpenRes::FailedPre(_, tf) => {
                            &&& final(self).itable@ == tf
                            &&& final(self).ftable.live == old(self).ftable.live
                            &&& final(proc).open_files@ == old(proc).open_files@
                        },
                        OpenRes::FailedFd(_, tf) => {
                            &&& final(self).itable@ == tf
                            &&& final(self).ftable.live == old(self).ftable.live
                            &&& final(proc).open_files@ == old(proc).open_files@
                        },
                        OpenRes::Opened(..) => false,
                    },
                }
            }),
    {
        match self.open(path, omode, proc) {
            Ok(fd) => Ok(fd),
            Err(_) => Err(()),
        }
    }

    /// Creates a new directory at `path`.
    pub fn sys_mkdir(&mut self, path: &Path, proc: &Proc) -> (r: Result<usize, ()>)
        requires
            wf(old(self).itable@),
            cwd_ok(old(self).itable@, *proc),
        ensures
            wf(final(self).itable@),
            final(self).ftable == old(self).ftable,
            final(self).devsw == old(self).devsw,
            ({
                let t = old(self).itable@;
                let oc = create_outcome(t, proc.cwd.slot(), path@, InodeType::Dir);
                match r {
                    Ok(z) => {
                        &&& z == 0
                        &&& match oc {
                            CreateRes::Failed(_) => false,
                            CreateRes::Reuse(_) => final(self).itable@ == t,
                            CreateRes::Fresh(dp) => final(self).itable@ == tbl_release(
                                create_fresh_post(t, dp, path_comps(path@).last(), InodeType::Dir),
                                t.len() as int,
                            ),
                        }
                    },
                    Err(()) => {
                        &&& oc matches CreateRes::Failed(_)
                        &&& final(self).itable@ == t
                    },
                }
            }),
    {
        match self.mkdir(path, proc) {
            Ok(()) => Ok(0),
            Err(_) => Err(()),
        }
    }

    /// Creates a device node at `path` with the given major and minor.
    pub fn sys_mknod(&mut self, path: &Path, major: u16, minor: u16, proc: &Proc) -> (r: Result<
        usize,
        (),
    >)
        requires
            wf(old(self).itable@),
            cwd_ok(old(self).itable@, *proc),
        ensures
            wf(final(self).itable@),
            final(self).ftable == old(self).ftable,
            final(self).devsw == old(self).devsw,
            ({
                let t = old(self).itable@;
                let typ = InodeType::Device { major, minor };
                let oc = create_outcome(t, proc.cwd.slot(), path@, typ);
                match r {
                    Ok(z) => {
                        &&& z == 0
                        &&& match oc {
                            CreateRes::Failed(_) => false,
                            CreateRes::Reuse(_) => final(self).itable@ == t,
                            CreateRes::Fresh(dp) => final(self).itable@ == tbl_release(
                                create_fresh_post(t, dp, path_comps(path@).last(), typ),
                                t.len() as int,
                            ),
                        }
                    },
                    Err(()) => {
                        &&& oc matches CreateRes::Failed(_)
                        &&& final(self).itable@ == t
                    },
                }
            }),
    {
        match self.mknod(path, major, minor, proc) {
            Ok(()) => Ok(0),
            Err(_) => Err(()),
        }
    }

    /// Changes the calling process's working directory to `path`.
    pub fn sys_chdir(&mut self, path: &Path, proc: &mut Proc) -> (r: Result<usize, ()>)
        requires
            wf(old(self).itable@),
            cwd_ok(old(self).itable@, *old(proc)),
        ensures
            wf(final(self).itable@),
            final(self).ftable == old(self).ftable,
            final(self).devsw == old(self).devsw,
            final(proc).open_files == old(proc).open_files,
            final(proc).mem == old(proc).mem,
            ({
                let t = old(self).itable@;
                let res = resolve_from(
                    t,
                    start_slot(is_abs(path@), old(proc).cwd.slot()),
                    path_comps(path@),
                );
                match r {
                    Ok(z) => {
                        &&& z == 0
                        &&& res == Resolution::Found(final(proc).cwd.slot())
                        &&& t[final(proc).cwd.slot()].typ is Dir
                        &&& cwd_ok(final(self).itable@, *final(proc))
                        &&& final(self).itable@ == tbl_release(
                            tbl_acquire(t, final(proc).cwd.slot()),
                            old(proc).cwd.slot(),
                        )
                    },
                    Err(()) => {
                        &&& final(self).itable@ == t
                        &&& final(proc).cwd == old(proc).cwd
                        &&& !(res matches Resolution::Found(i) && t[i].typ is Dir)
                    },
                }
            }),
    {
        match self.chdir(path, proc) {
            Ok(()) => Ok(0),
            Err(_) => Err(()),
        }
    }

    /// Creates a pipe and writes its two descriptors to user words
    /// `fdarray` and `fdarray + 1`.
    pub fn sys_pipe(&mut self, fdarray: usize, proc: &mut Proc) -> (r: Result<usize, ()>)
        requires
            wf(old(self).itable@),
            proc_wf(*old(proc)),
        ensures
            wf(final(self).itable@),
            proc_wf(*final(proc)),
            final(self).itable@ == old(self).itable@,
            final(self).ftable.cap == old(self).ftable.cap,
            final(self).devsw == old(self).devsw,
            final(proc).cwd == old(proc).cwd,
            ({
                let fds = old(proc).open_files@;
                let live = old(self).ftable.live;
                let cap = old(self).ftable.cap;
                let mem = old(proc).mem.words@;
                let reader = (RcFile { typ: FileType::Pipe, readable: true, writable: false });
                let writer = (RcFile { typ: FileType::Pipe, readable: false, writable: true });
                let unchanged = {
                    &&& final(self).ftable.live == live
                    &&& final(proc).open_files@ == fds
                    &&& final(proc).mem.words@ == mem
                };
                if live + 2 > cap {
                    r == Err::<usize, ()>(()) && unchanged
                } else {
                    match first_free_fd(fds) {
                        None => r == Err::<usize, ()>(()) && unchanged,
                        Some(fd0) => {
                            let fds1 = fds.update(fd0, Some(reader));
                            match first_free_fd(fds1) {
                                None => r == Err::<usize, ()>(()) && unchanged,
                                Some(fd1) => if fdarray >= mem.len() {
                                    r == Err::<usize, ()>(()) && unchanged
                                } else if fdarray + 1 >= mem.len() {
                                    &&& r == Err::<usize, ()>(())
                                    &&& final(self).ftable.live == live
                                    &&& final(proc).open_files@ == fds
                                    &&& final(proc).mem.words@ == mem.update(
                                        fdarray as int,
                                        fd0 as i32,
                                    )
                                } else {
                                    &&& r == Ok::<usize, ()>(0)
                                    &&& final(self).ftable.live == live + 2
                                    &&& final(proc).open_files@ == fds1.update(fd1, Some(writer))
                                    &&& final(proc).mem.words@ == mem.update(
                                        fdarray as int,
                                        fd0 as i32,
                                    ).update(fdarray + 1, fd1 as i32)
                                },
                            }
                        },
                    }
                }
            }),
    {
        match self.pipe(fdarray, proc) {
            Ok(()) => Ok(0),
            Err(_) => Err(()),
        }
    }
}

} // verus!
