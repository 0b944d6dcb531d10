//! An in-memory model of the shared inode table: reference-counted
//! handles, per-inode metadata, and flat directory contents. The resolver
//! and the syscall-level operations are verified against this model; the
//! on-disk storage format, the buffer cache and the lock primitives stay
//! with their collaborators.
//!
//! Exclusive inode guards are rendered by Rust's `&mut` discipline: every
//! metadata mutation goes through a `&mut` method of the table, so at most
//! one mutator per table — and hence per inode — exists at any instant.

use vstd::prelude::*;

use crate::error::FsError;
use crate::path::{bytes_eq, dot_seq, dotdot_seq, FileName};
use crate::tx::Tx;

verus! {

/// Device number of the root file system.
pub const ROOTDEV: u32 = 1;

/// Table slot (and inode number) of the root directory.
pub const ROOTINO: usize = 1;

/// Largest inode number a directory entry can store.
pub const MAXINUM: usize = 0xffff_ffff;

/// What kind of object an inode describes.
#[derive(Clone, Copy, PartialEq, Eq, Structural, Debug)]
pub enum InodeType {
    /// The slot holds no object; inode number 0 always has this type.
    Free,
    /// A directory.
    Dir,
    /// A regular file.
    File,
    /// A device node, identified by major/minor numbers.
    Device { major: u16, minor: u16 },
}

/// On-disk directory record: a name paired with an inode number. A record
/// whose inode number is 0 is a free slot.
pub struct Dirent {
    pub name: FileName,
    pub inum: u32,
}

/// Mathematical image of one directory record.
#[verifier::ext_equal]
pub struct DirentV {
    pub name: Seq<u8>,
    pub inum: u32,
}

impl View for Dirent {
    type V = DirentV;

    open spec fn view(&self) -> DirentV {
        DirentV { name: self.name@, inum: self.inum }
    }
}

/// One inode: its metadata and its directory contents, plus the in-memory
/// count of cached handles on it.
pub struct Inode {
    pub dev: u32,
    pub typ: InodeType,
    pub nlink: u16,
    pub size: u32,
    pub entries: Vec<Dirent>,
    pub refs: u32,
}

/// Mathematical image of one inode.
#[verifier::ext_equal]
pub struct InodeV {
    pub dev: u32,
    pub typ: InodeType,
    pub nlink: u16,
    pub size: u32,
    pub entries: Seq<DirentV>,
    pub refs: u32,
}

impl View for Inode {
    type V = InodeV;

    open spec fn view(&self) -> InodeV {
        InodeV {
            dev: self.dev,
            typ: self.typ,
            nlink: self.nlink,
            size: self.size,
            entries: self.entries@.map_values(|d: Dirent| d@),
            refs: self.refs,
        }
    }
}

/// A shared, reference-counted handle identifying one inode table slot.
/// Each live handle accounts for one unit of its slot's `refs` counter,
/// which is kept modulo its width; handles are duplicated and released
/// only through the table, inside a transaction scope where the release's
/// write-back may touch the disk.
#[derive(Debug)]
pub struct RcInode {
    idx: usize,
}

impl RcInode {
    /// The table slot this handle identifies.
    pub closed spec fn slot(self) -> int {
        self.idx as int
    }

    /// The inode number this handle identifies.
    pub fn inum(&self) -> (r: usize)
        ensures
            r == self.slot(),
    {
        self.idx
    }
}

/// The shared inode table.
pub struct InodeTable {
    inodes: Vec<Inode>,
}

impl View for InodeTable {
    type V = Seq<InodeV>;

    closed spec fn view(&self) -> Seq<InodeV> {
        self.inodes@.map_values(|n: Inode| n@)
    }
}

/// A directory record may only reference a real, non-zero slot.
pub open spec fn entry_ok(t: Seq<InodeV>, e: DirentV) -> bool {
    e.inum != 0 ==> 1 <= e.inum < t.len()
}

/// Structural soundness of the whole table: slot 0 is the permanent free
/// marker, the table fits the on-disk inode-number width, and every live
/// directory record points inside the table.
pub open spec fn wf(t: Seq<InodeV>) -> bool {
    &&& 2 <= t.len() <= MAXINUM
    &&& t[0].typ is Free
    &&& forall|d: int, j: int|
        0 <= d < t.len() && 0 <= j < t[d].entries.len() ==> entry_ok(t, #[trigger] t[d].entries[j])
}

/// A handle identifies a real slot of the table.
pub open spec fn valid_handle(t: Seq<InodeV>, h: RcInode) -> bool {
    0 <= h.slot() < t.len()
}

/// One more cached reference; the counter wraps at its width.
pub open spec fn refs_inc(r: u32) -> u32 {
    if r == 0xffff_ffffu32 {
        0
    } else {
        (r + 1) as u32
    }
}

/// One cached reference gone; the counter wraps at zero.
pub open spec fn refs_dec(r: u32) -> u32 {
    if r == 0 {
        0xffff_ffffu32
    } else {
        (r - 1) as u32
    }
}

/// The table after taking one more handle on slot `s`.
pub open spec fn tbl_acquire(t: Seq<InodeV>, s: int) -> Seq<InodeV> {
    t.update(s, InodeV { refs: refs_inc(t[s].refs), ..t[s] })
}

/// The table after dropping one handle on slot `s`.
pub open spec fn tbl_release(t: Seq<InodeV>, s: int) -> Seq<InodeV> {
    t.update(s, InodeV { refs: refs_dec(t[s].refs), ..t[s] })
}

/// The table after rewriting slot `s`'s link count.
pub open spec fn tbl_set_nlink(t: Seq<InodeV>, s: int, n: u16) -> Seq<InodeV> {
    t.update(s, InodeV { nlink: n, ..t[s] })
}

/// The table after truncating slot `s`'s content.
pub open spec fn tbl_truncate(t: Seq<InodeV>, s: int) -> Seq<InodeV> {
    t.update(s, InodeV { size: 0, ..t[s] })
}

/// The table after zeroing record `off` of directory `d`.
pub open spec fn tbl_zero_entry(t: Seq<InodeV>, d: int, off: int) -> Seq<InodeV> {
    t.update(d, InodeV { entries: t[d].entries.update(off, free_dirent()), ..t[d] })
}

/// The image of a zeroed directory record.
pub open spec fn free_dirent() -> DirentV {
    DirentV { name: Seq::empty(), inum: 0 }
}

/// The table after writing a record `name -> inum` into directory `d`.
pub open spec fn tbl_link(t: Seq<InodeV>, d: int, name: Seq<u8>, inum: u32) -> Seq<InodeV> {
    t.update(d, InodeV { entries: put_entry(t[d].entries, name, inum), ..t[d] })
}

/// Whether record `e` is live and carries `name`.
pub open spec fn ent_match(e: DirentV, name: Seq<u8>) -> bool {
    e.inum != 0 && e.name == name
}

/// Index of the first live record carrying `name`, if any.
pub open spec fn lookup_idx(es: Seq<DirentV>, name: Seq<u8>) -> Option<int>
    decreases es.len(),
{
    if es.len() == 0 {
        None
    } else if ent_match(es[0], name) {
        Some(0)
    } else {
        match lookup_idx(es.drop_first(), name) {
            Some(k) => Some(k + 1),
            None => None,
        }
    }
}

/// What `lookup_idx` finds is the first match, and `None` means no match.
pub proof fn lemma_lookup_idx(es: Seq<DirentV>, name: Seq<u8>)
    ensures
        match lookup_idx(es, name) {
            Some(k) => {
                &&& 0 <= k < es.len()
                &&& ent_match(es[k], name)
                &&& forall|j: int| 0 <= j < k ==> !ent_match(#[trigger] es[j], name)
            },
            None => forall|j: int| 0 <= j < es.len() ==> !ent_match(#[trigger] es[j], name),
        },
    decreases es.len(),
{
    if es.len() > 0 && !ent_match(es[0], name) {
        lemma_lookup_idx(es.drop_first(), name);
        match lookup_idx(es.drop_first(), name) {
            Some(k) => {
                assert forall|j: int| 0 <= j < k + 1 implies !ent_match(#[trigger] es[j], name) by {
                    if j > 0 {
                        assert(!ent_match(es.drop_first()[j - 1], name));
                    }
                }
            },
            None => {
                assert forall|j: int| 0 <= j < es.len() implies !ent_match(
                    #[trigger] es[j],
                    name,
                ) by {
                    if j > 0 {
                        assert(!ent_match(es.drop_first()[j - 1], name));
                    }
                }
            },
        }
    }
}

/// Index of the first free record, if any.
pub open spec fn first_free_idx(es: Seq<DirentV>) -> Option<int>
    decreases es.len(),
{
    if es.len() == 0 {
        None
    } else if es[0].inum == 0 {
        Some(0)
    } else {
        match first_free_idx(es.drop_first()) {
            Some(k) => Some(k + 1),
            None => None,
        }
    }
}

/// What `first_free_idx` finds is the first free record.
pub proof fn lemma_first_free_idx(es: Seq<DirentV>)
    ensures
        match first_free_idx(es) {
            Some(k) => {
                &&& 0 <= k < es.len()
                &&& es[k].inum == 0
                &&& forall|j: int| 0 <= j < k ==> #[trigger] es[j].inum != 0
            },
            None => forall|j: int| 0 <= j < es.len() ==> #[trigger] es[j].inum != 0,
        },
    decreases es.len(),
{
    if es.len() > 0 && es[0].inum != 0 {
        lemma_first_free_idx(es.drop_first());
        match first_free_idx(es.drop_first()) {
            Some(k) => {
                assert forall|j: int| 0 <= j < k + 1 implies #[trigger] es[j].inum != 0 by {
                    if j > 0 {
                        assert(es.drop_first()[j - 1].inum != 0);
                    }
                }
            },
            None => {
                assert forall|j: int| 0 <= j < es.len() implies #[trigger] es[j].inum != 0 by {
                    if j > 0 {
                        assert(es.drop_first()[j - 1].inum != 0);
                    }
                }
            },
        }
    }
}

/// Directory contents after writing `name -> inum`: the record goes into
/// the first free slot, or is appended when none is free.
pub open spec fn put_entry(es: Seq<DirentV>, name: Seq<u8>, inum: u32) -> Seq<DirentV> {
    match first_free_idx(es) {
        Some(k) => es.update(k, DirentV { name, inum }),
        None => es.push(DirentV { name, inum }),
    }
}

/// A directory with no live record beyond its first two ("." and "..").
pub open spec fn dir_empty(es: Seq<DirentV>) -> bool {
    forall|i: int| 2 <= i < es.len() ==> #[trigger] es[i].inum == 0
}

/// How many records of `es` are live.
pub open spec fn count_live(es: Seq<DirentV>) -> nat
    decreases es.len(),
{
    if es.len() == 0 {
        0
    } else {
        count_live(es.drop_last()) + if es.last().inum != 0 {
            1nat
        } else {
            0
        }
    }
}

fn refs_bump(r: u32) -> (o: u32)
    ensures
        o == refs_inc(r),
{
    if r == 0xffff_ffff {
        0
    } else {
        r + 1
    }
}

impl InodeTable {
    /// A fresh table: the free marker in slot 0 and the root directory in
    /// slot `ROOTINO`, whose "." and ".." both resolve to itself.
    pub fn new() -> (r: InodeTable)
        ensures
            wf(r@),
            r@.len() == 2,
            r@[ROOTINO as int].typ is Dir,
            r@[ROOTINO as int].dev == ROOTDEV,
            r@[ROOTINO as int].nlink == 1,
            r@[ROOTINO as int].refs == 0,
            r@[ROOTINO as int].entries == seq![
                (DirentV { name: dot_seq(), inum: 1 }),
                (DirentV { name: dotdot_seq(), inum: 1 }),
            ],
    {
        let mut inodes: Vec<Inode> = Vec::new();
        inodes.push(
            Inode {
                dev: 0,
                typ: InodeType::Free,
                nlink: 0,
                size: 0,
                entries: Vec::new(),
                refs: 0,
            },
        );
        let mut rootents: Vec<Dirent> = Vec::new();
        rootents.push(Dirent { name: FileName::dot(), inum: 1 });
        rootents.push(Dirent { name: FileName::dotdot(), inum: 1 });
        inodes.push(
            Inode { dev: ROOTDEV, typ: InodeType::Dir, nlink: 1, size: 0, entries: rootents, refs: 0 },
        );
        let r = InodeTable { inodes };
        proof {
            assert(r@[ROOTINO as int].entries =~= seq![
                (DirentV { name: dot_seq(), inum: 1 }),
                (DirentV { name: dotdot_seq(), inum: 1 }),
            ]);
            assert forall|d: int, j: int|
                0 <= d < r@.len() && 0 <= j < r@[d].entries.len() implies entry_ok(
                r@,
                #[trigger] r@[d].entries[j],
            ) by {}
        }
        r
    }

    /// A fresh handle on the root directory.
    pub fn root(&mut self) -> (h: RcInode)
        requires
            wf(old(self)@),
        ensures
            wf(final(self)@),
            h.slot() == ROOTINO as int,
            valid_handle(final(self)@, h),
            final(self)@ == tbl_acquire(old(self)@, ROOTINO as int),
    {
        let r0 = self.inodes[ROOTINO].refs;
        self.inodes[ROOTINO].refs = refs_bump(r0);
        proof {
            assert(self@ =~~= tbl_acquire(old(self)@, ROOTINO as int));
        }
        RcInode { idx: ROOTINO }
    }

    /// One more handle on the inode `h` identifies.
    pub fn dup(&mut self, h: &RcInode) -> (r: RcInode)
        requires
            wf(old(self)@),
            valid_handle(old(self)@, *h),
        ensures
            wf(final(self)@),
            r.slot() == h.slot(),
            valid_handle(final(self)@, r),
            final(self)@ == tbl_acquire(old(self)@, h.slot()),
    {
        let s = h.inum();
        let r0 = self.inodes[s].refs;
        self.inodes[s].refs = refs_bump(r0);
        proof {
            assert(self@ =~~= tbl_acquire(old(self)@, h.slot()));
        }
        RcInode { idx: s }
    }

    /// Drops one handle. The write-back that a dropped last reference may
    /// trigger is the storage collaborator's work, hence the transaction
    /// scope.
    pub fn release(&mut self, h: RcInode, _tx: &Tx)
        requires
            wf(old(self)@),
            valid_handle(old(self)@, h),
        ensures
            wf(final(self)@),
            final(self)@ == tbl_release(old(self)@, h.slot()),
    {
        let s = h.inum();
        let r0 = self.inodes[s].refs;
        self.inodes[s].refs = if r0 == 0 {
            0xffff_ffff
        } else {
            r0 - 1
        };
        proof {
            assert(self@ =~~= tbl_release(old(self)@, h.slot()));
        }
    }

    /// The type of the inode `h` identifies.
    pub fn typ_of(&self, h: &RcInode) -> (r: InodeType)
        requires
            valid_handle(self@, *h),
        ensures
            r == self@[h.slot()].typ,
    {
        self.inodes[h.inum()].typ
    }

    /// The link count of the inode `h` identifies.
    pub fn nlink_of(&self, h: &RcInode) -> (r: u16)
        requires
            valid_handle(self@, *h),
        ensures
            r == self@[h.slot()].nlink,
    {
        self.inodes[h.inum()].nlink
    }

    /// The device the inode `h` identifies lives on.
    pub fn dev_of(&self, h: &RcInode) -> (r: u32)
        requires
            valid_handle(self@, *h),
        ensures
            r == self@[h.slot()].dev,
    {
        self.inodes[h.inum()].dev
    }

    /// The content size of the inode `h` identifies.
    pub fn size_of(&self, h: &RcInode) -> (r: u32)
        requires
            valid_handle(self@, *h),
        ensures
            r == self@[h.slot()].size,
    {
        self.inodes[h.inum()].size
    }

    /// Rewrites the link count of the inode `h` identifies and persists
    /// it under the open transaction.
    pub fn set_nlink(&mut self, h: &RcInode, n: u16, _tx: &Tx)
        requires
            wf(old(self)@),
            valid_handle(old(self)@, *h),
        ensures
            wf(final(self)@),
            final(self)@ == tbl_set_nlink(old(self)@, h.slot(), n),
    {
        let s = h.inum();
        self.inodes[s].nlink = n;
        proof {
            assert(self@ =~~= tbl_set_nlink(old(self)@, h.slot(), n));
        }
    }

    /// Discards the content of the inode `h` identifies.
    pub fn truncate(&mut self, h: &RcInode, _tx: &Tx)
        requires
            wf(old(self)@),
            valid_handle(old(self)@, *h),
        ensures
            wf(final(self)@),
            final(self)@ == tbl_truncate(old(self)@, h.slot()),
    {
        let s = h.inum();
        self.inodes[s].size = 0;
        proof {
            assert(self@ =~~= tbl_truncate(old(self)@, h.slot()));
        }
    }

    /// Looks `name` up in directory `d`: a handle on the first live
    /// matching record's inode and that record's offset, or NotFound.
    pub fn dirlookup(&mut self, d: &RcInode, name: &FileName) -> (r: Result<
        (RcInode, usize),
        FsError,
    >)
        requires
            wf(old(self)@),
            valid_handle(old(self)@, *d),
            old(self)@[d.slot()].typ is Dir,
        ensures
            wf(final(self)@),
            final(self)@.len() == old(self)@.len(),
            match r {
                Ok((h, off)) => {
                    &&& lookup_idx(old(self)@[d.slot()].entries, name@) == Some(off as int)
                    &&& h.slot() == old(self)@[d.slot()].entries[off as int].inum as int
                    &&& 1 <= h.slot() < old(self)@.len()
                    &&& final(self)@ == tbl_acquire(old(self)@, h.slot())
                    &&& valid_handle(final(self)@, h)
                },
                Err(e) => {
                    &&& e == FsError::NotFound
                    &&& lookup_idx(old(self)@[d.slot()].entries, name@) is None
                    &&& final(self)@ == old(self)@
                },
            },
    {
        let ds = d.inum();
        let n = self.inodes[ds].entries.len();
        let ghost es = self@[d.slot()].entries;
        let mut i: usize = 0;
        while i < n
            invariant
                wf(self@),
                self@ == old(self)@,
                ds == d.slot(),
                0 <= ds < self@.len(),
                es == self@[ds as int].entries,
                n == es.len(),
                i <= n,
                forall|j: int| 0 <= j < i ==> !ent_match(#[trigger] es[j], name@),
            decreases n - i,
        {
            let live = self.inodes[ds].entries[i].inum != 0;
            let hit = live && bytes_eq(
                self.inodes[ds].entries[i].name.as_bytes(),
                name.as_bytes(),
            );
            if hit {
                let target = self.inodes[ds].entries[i].inum as usize;
                proof {
                    assert(ent_match(es[i as int], name@));
                    assert(entry_ok(self@, self@[ds as int].entries[i as int]));
                    lemma_lookup_idx(es, name@);
                    match lookup_idx(es, name@) {
                        Some(k) => {
                            if k < i {
                                assert(!ent_match(es[k], name@));
                            }
                            if k > i {
                                assert(!ent_match(es[i as int], name@));
                            }
                        },
                        None => {
                            assert(!ent_match(es[i as int], name@));
                        },
                    }
                    assert(lookup_idx(es, name@) == Some(i as int));
                }
                let r0 = self.inodes[target].refs;
                self.inodes[target].refs = refs_bump(r0);
                proof {
                    assert(self@ =~~= tbl_acquire(old(self)@, target as int));
                }
                return Ok((RcInode { idx: target }, i));
            }
            i += 1;
        }
        proof {
            lemma_lookup_idx(es, name@);
            match lookup_idx(es, name@) {
                Some(k) => {
                    assert(!ent_match(es[k], name@));
                },
                None => {},
            }
        }
        Err(FsError::NotFound)
    }

    /// Writes the record `name -> inum` into directory `d`, reusing the
    /// first free record or appending one; refuses a name that is already
    /// present.
    pub fn dirlink(&mut self, d: &RcInode, name: &FileName, inum: usize, _tx: &Tx) -> (r: Result<
        (),
        FsError,
    >)
        requires
            wf(old(self)@),
            valid_handle(old(self)@, *d),
            old(self)@[d.slot()].typ is Dir,
            1 <= inum < old(self)@.len(),
        ensures
            wf(final(self)@),
            final(self)@.len() == old(self)@.len(),
            match r {
                Ok(()) => {
                    &&& lookup_idx(old(self)@[d.slot()].entries, name@) is None
                    &&& final(self)@ == tbl_link(old(self)@, d.slot(), name@, inum as u32)
                },
                Err(e) => {
                    &&& e == FsError::AlreadyExists
                    &&& lookup_idx(old(self)@[d.slot()].entries, name@) is Some
                    &&& final(self)@ == old(self)@
                },
            },
    {
        let ds = d.inum();
        let n = self.inodes[ds].entries.len();
        let ghost es = self@[d.slot()].entries;
        let mut i: usize = 0;
        while i < n
            invariant
                wf(self@),
                self@ == old(self)@,
                ds == d.slot(),
                0 <= ds < self@.len(),
                es == self@[ds as int].entries,
                n == es.len(),
                i <= n,
                forall|j: int| 0 <= j < i ==> !ent_match(#[trigger] es[j], name@),
            decreases n - i,
        {
            let live = self.inodes[ds].entries[i].inum != 0;
            if live && bytes_eq(self.inodes[ds].entries[i].name.as_bytes(), name.as_bytes()) {
                proof {
                    assert(ent_match(es[i as int], name@));
                    lemma_lookup_idx(es, name@);
                    match lookup_idx(es, name@) {
                        Some(_) => {},
                        None => {
                            assert(!ent_match(es[i as int], name@));
                        },
                    }
                }
                return Err(FsError::AlreadyExists);
            }
            i += 1;
        }
        proof {
            lemma_lookup_idx(es, name@);
            match lookup_idx(es, name@) {
                Some(k) => {
                    assert(!ent_match(es[k], name@));
                },
                None => {},
            }
        }
        // Find the first free record, else append.
        let mut k: usize = 0;
        while k < n
            invariant
                wf(self@),
                self@ == old(self)@,
                lookup_idx(es, name@) is None,
                1 <= inum < self@.len(),
                ds == d.slot(),
                0 <= ds < self@.len(),
                es == self@[ds as int].entries,
                n == es.len(),
                k <= n,
                forall|j: int| 0 <= j < k ==> #[trigger] es[j].inum != 0,
            decreases n - k,
        {
            if self.inodes[ds].entries[k].inum == 0 {
                proof {
                    lemma_first_free_idx(es);
                    match first_free_idx(es) {
                        Some(f) => {
                            if f < k {
                                assert(es[f].inum != 0);
                            }
                            if f > k {
                                assert(es[k as int].inum != 0);
                            }
                        },
                        None => {
                            assert(es[k as int].inum != 0);
                        },
                    }
                    assert(first_free_idx(es) == Some(k as int));
                }
                self.inodes[ds].entries[k] = Dirent { name: name.duplicate(), inum: inum as u32 };
                proof {
                    assert(self@ =~~= tbl_link(old(self)@, d.slot(), name@, inum as u32));
                    assert forall|dd: int, j: int|
                        0 <= dd < self@.len() && 0 <= j < self@[dd].entries.len() implies entry_ok(
                        self@,
                        #[trigger] self@[dd].entries[j],
                    ) by {
                        if !(dd == ds as int && j == k as int) {
                            assert(entry_ok(old(self)@, old(self)@[dd].entries[j]));
                        }
                    }
                }
                return Ok(());
            }
            k += 1;
        }
        proof {
            lemma_first_free_idx(es);
            match first_free_idx(es) {
                Some(f) => {
                    assert(es[f].inum != 0);
                },
                None => {},
            }
        }
        self.inodes[ds].entries.push(Dirent { name: name.duplicate(), inum: inum as u32 });
        proof {
            assert(self@ =~~= tbl_link(old(self)@, d.slot(), name@, inum as u32));
            assert forall|dd: int, j: int|
                0 <= dd < self@.len() && 0 <= j < self@[dd].entries.len() implies entry_ok(
                self@,
                #[trigger] self@[dd].entries[j],
            ) by {
                if !(dd == ds as int && j == es.len()) {
                    assert(entry_ok(old(self)@, old(self)@[dd].entries[j]));
                }
            }
        }
        Ok(())
    }

    /// Zeroes the record at `off` in directory `d`, marking it free.
    pub fn zero_entry(&mut self, d: &RcInode, off: usize, _tx: &Tx)
        requires
            wf(old(self)@),
            valid_handle(old(self)@, *d),
            off < old(self)@[d.slot()].entries.len(),
        ensures
            wf(final(self)@),
            final(self)@ == tbl_zero_entry(old(self)@, d.slot(), off as int),
    {
        let ds = d.inum();
        self.inodes[ds].entries[off] = Dirent { name: FileName::empty(), inum: 0 };
        proof {
            assert(self@ =~~= tbl_zero_entry(old(self)@, d.slot(), off as int));
            assert forall|dd: int, j: int|
                0 <= dd < self@.len() && 0 <= j < self@[dd].entries.len() implies entry_ok(
                self@,
                #[trigger] self@[dd].entries[j],
            ) by {
                if !(dd == ds as int && j == off as int) {
                    assert(entry_ok(old(self)@, old(self)@[dd].entries[j]));
                }
            }
        }
    }

    /// Whether directory `d` holds nothing but its first two records.
    pub fn is_dir_empty(&self, d: &RcInode) -> (r: bool)
        requires
            valid_handle(self@, *d),
        ensures
            r <==> dir_empty(self@[d.slot()].entries),
    {
        let ds = d.inum();
        let n = self.inodes[ds].entries.len();
        let mut i: usize = 2;
        if n < 2 {
            return true;
        }
        while i < n
            invariant
                ds == d.slot(),
                0 <= ds < self@.len(),
                n == self@[ds as int].entries.len(),
                2 <= i <= n,
                forall|j: int| 2 <= j < i ==> #[trigger] self@[ds as int].entries[j].inum == 0,
            decreases n - i,
        {
            if self.inodes[ds].entries[i].inum != 0 {
                proof {
                    assert(self@[ds as int].entries[i as int].inum != 0);
                }
                return false;
            }
            i += 1;
        }
        true
    }

    /// How many records of directory `d` are live.
    pub fn live_entry_count(&self, d: &RcInode) -> (r: usize)
        requires
            valid_handle(self@, *d),
        ensures
            r == count_live(self@[d.slot()].entries),
    {
        let ds = d.inum();
        let n = self.inodes[ds].entries.len();
        let ghost es = self@[d.slot()].entries;
        let mut i: usize = 0;
        let mut r: usize = 0;
        while i < n
            invariant
                ds == d.slot(),
                0 <= ds < self@.len(),
                es == self@[ds as int].entries,
                n == es.len(),
                i <= n,
                r <= i,
                r == count_live(es.take(i as int)),
            decreases n - i,
        {
            proof {
                assert(es.take(i + 1).drop_last() =~= es.take(i as int));
                assert(es.take(i + 1).last() == es[i as int]);
            }
            if self.inodes[ds].entries[i].inum != 0 {
                r += 1;
            }
            i += 1;
        }
        proof {
            assert(es.take(n as int) =~= es);
        }
        r
    }

    /// Allocates a fresh inode of the given type on device `dev`, holding
    /// one handle on it; its link count starts at 0 and its directory
    /// contents empty.
    pub fn alloc_inode(&mut self, dev: u32, typ: InodeType, _tx: &Tx) -> (r: Result<
        RcInode,
        FsError,
    >)
        requires
            wf(old(self)@),
        ensures
            wf(final(self)@),
            match r {
                Ok(h) => {
                    &&& old(self)@.len() < MAXINUM as int
                    &&& h.slot() == old(self)@.len()
                    &&& valid_handle(final(self)@, h)
                    &&& final(self)@ == old(self)@.push(
                        (InodeV {
                            dev,
                            typ,
                            nlink: 0,
                            size: 0,
                            entries: Seq::empty(),
                            refs: 1,
                        }),
                    )
                },
                Err(e) => {
                    &&& e == FsError::ResourceExhausted
                    &&& old(self)@.len() == MAXINUM as int
                    &&& final(self)@ == old(self)@
                },
            },
    {
        let n = self.inodes.len();
        if n >= MAXINUM {
            return Err(FsError::ResourceExhausted);
        }
        self.inodes.push(
            Inode { dev, typ, nlink: 0, size: 0, entries: Vec::new(), refs: 1 },
        );
        proof {
            assert(self@ =~~= old(self)@.push(
                InodeV { dev, typ, nlink: 0, size: 0, entries: Seq::empty(), refs: 1 },
            ));
            assert forall|dd: int, j: int|
                0 <= dd < self@.len() && 0 <= j < self@[dd].entries.len() implies entry_ok(
                self@,
                #[trigger] self@[dd].entries[j],
            ) by {
                if dd < old(self)@.len() {
                    assert(entry_ok(old(self)@, old(self)@[dd].entries[j]));
                }
            }
        }
        Ok(RcInode { idx: n })
    }
}

} // verus!
