//! The calling process's context: its current working directory handle,
//! its fixed-size open-file-descriptor table and its user-memory window;
//! the file-object layer that descriptors point at; and the binding of a
//! file object to a descriptor slot.

use vstd::prelude::*;

use crate::error::FsError;
use crate::inode::{tbl_acquire, tbl_release, wf, InodeTable, RcInode};
use crate::tx::Tx;

verus! {

/// Number of descriptor slots per process.
pub const NOFILE: usize = 16;

/// What an open file object is backed by.
pub enum FileType {
    /// One end of a pipe.
    Pipe,
    /// A device node, dispatched through its major number.
    Device { ip: RcInode, major: u16 },
    /// A plain inode-backed file.
    Inode { ip: RcInode },
}

/// An open file object, as handed out by the file-object layer.
pub struct RcFile {
    pub typ: FileType,
    pub readable: bool,
    pub writable: bool,
}

/// The inode handle a file object carries, if any.
pub open spec fn file_slot(f: RcFile) -> Option<int> {
    match f.typ {
        FileType::Pipe => None,
        FileType::Device { ip, .. } => Some(ip.slot()),
        FileType::Inode { ip } => Some(ip.slot()),
    }
}

/// A file object's inode handle, if any, identifies a real table slot.
pub open spec fn file_ok(t: Seq<crate::inode::InodeV>, f: RcFile) -> bool {
    match file_slot(f) {
        Some(s) => 0 <= s < t.len(),
        None => true,
    }
}

/// Two file objects that share a backing object: same kind, same inode
/// slot, same access rights.
pub open spec fn file_same(f: RcFile, g: RcFile) -> bool {
    &&& f.readable == g.readable
    &&& f.writable == g.writable
    &&& match (f.typ, g.typ) {
        (FileType::Pipe, FileType::Pipe) => true,
        (FileType::Device { ip: a, major: ma }, FileType::Device { ip: b, major: mb }) => a.slot()
            == b.slot() && ma == mb,
        (FileType::Inode { ip: a }, FileType::Inode { ip: b }) => a.slot() == b.slot(),
        _ => false,
    }
}

/// The file-object layer: a bounded pool of file objects. Only the count
/// of live objects is modelled; the objects' contents travel inside the
/// `RcFile` values themselves.
pub struct FileTable {
    pub live: u32,
    pub cap: u32,
}

impl FileTable {
    /// A fresh pool that can hand out `cap` file objects.
    pub fn new(cap: u32) -> (r: FileTable)
        ensures
            r.live == 0,
            r.cap == cap,
    {
        FileTable { live: 0, cap }
    }

    /// Allocates one file object, or reports exhaustion.
    pub fn alloc_file(&mut self, typ: FileType, readable: bool, writable: bool) -> (r: Result<
        RcFile,
        FsError,
    >)
        ensures
            final(self).cap == old(self).cap,
            match r {
                Ok(f) => {
                    &&& old(self).live < old(self).cap
                    &&& final(self).live == old(self).live + 1
                    &&& f == (RcFile { typ, readable, writable })
                },
                Err(e) => {
                    &&& e == FsError::ResourceExhausted
                    &&& old(self).live >= old(self).cap
                    &&& final(self).live == old(self).live
                },
            },
    {
        if self.live < self.cap {
            self.live = self.live + 1;
            Ok(RcFile { typ, readable, writable })
        } else {
            Err(FsError::ResourceExhausted)
        }
    }

    /// Allocates a connected reader/writer pair of pipe file objects, or
    /// reports exhaustion leaving nothing allocated.
    pub fn allocate_pipe(&mut self) -> (r: Result<(RcFile, RcFile), FsError>)
        ensures
            final(self).cap == old(self).cap,
            match r {
                Ok((rd, wr)) => {
                    &&& old(self).live + 2 <= old(self).cap
                    &&& final(self).live == old(self).live + 2
                    &&& rd == (RcFile { typ: FileType::Pipe, readable: true, writable: false })
                    &&& wr == (RcFile { typ: FileType::Pipe, readable: false, writable: true })
                },
                Err(e) => {
                    &&& e == FsError::ResourceExhausted
                    &&& old(self).live + 2 > old(self).cap
                    &&& final(self).live == old(self).live
                },
            },
    {
        if self.live <= self.cap && self.cap - self.live >= 2 {
            self.live = self.live + 2;
            Ok(
                (
                    RcFile { typ: FileType::Pipe, readable: true, writable: false },
                    RcFile { typ: FileType::Pipe, readable: false, writable: true },
                ),
            )
        } else {
            Err(FsError::ResourceExhausted)
        }
    }

    /// One more shared reference to the object behind `f`, as a fresh
    /// file object; its inode handle, if any, is duplicated too.
    pub fn dup_file(&mut self, f: &RcFile, itable: &mut InodeTable) -> (r: Result<RcFile, FsError>)
        requires
            wf(old(itable)@),
            file_ok(old(itable)@, *f),
        ensures
            wf(final(itable)@),
            final(self).cap == old(self).cap,
            match r {
                Ok(g) => {
                    &&& old(self).live < old(self).cap
                    &&& final(self).live == old(self).live + 1
                    &&& file_same(*f, g)
                    &&& final(itable)@ == match file_slot(*f) {
                        Some(s) => tbl_acquire(old(itable)@, s),
                        None => old(itable)@,
                    }
                },
                Err(e) => {
                    &&& e == FsError::ResourceExhausted
                    &&& old(self).live >= old(self).cap
                    &&& final(self).live == old(self).live
                    &&& final(itable)@ == old(itable)@
                },
            },
    {
        if self.live < self.cap {
            self.live = self.live + 1;
            let typ = match &f.typ {
                FileType::Pipe => FileType::Pipe,
                FileType::Device { ip, major } => FileType::Device {
                    ip: itable.dup(ip),
                    major: *major,
                },
                FileType::Inode { ip } => FileType::Inode { ip: itable.dup(ip) },
            };
            Ok(RcFile { typ, readable: f.readable, writable: f.writable })
        } else {
            Err(FsError::ResourceExhausted)
        }
    }

    /// Gives a file object back: its inode handle, if any, is released
    /// under the open transaction, and the pool count drops.
    pub fn close_file(&mut self, f: RcFile, itable: &mut InodeTable, tx: &Tx)
        requires
            wf(old(itable)@),
            file_ok(old(itable)@, f),
        ensures
            wf(final(itable)@),
            final(self).cap == old(self).cap,
            final(self).live == if old(self).live > 0 {
                (old(self).live - 1) as u32
            } else {
                0
            },
            final(itable)@ == match file_slot(f) {
                Some(s) => tbl_release(old(itable)@, s),
                None => old(itable)@,
            },
    {
        match f.typ {
            FileType::Pipe => {},
            FileType::Device { ip, major: _ } => itable.release(ip, tx),
            FileType::Inode { ip } => itable.release(ip, tx),
        }
        if self.live > 0 {
            self.live = self.live - 1;
        }
    }
}

/// The process's user-memory window, as a flat array of words reachable
/// by copy-out.
pub struct UserMem {
    pub words: Vec<i32>,
}

impl UserMem {
    /// A window of `n` zeroed words.
    pub fn new(n: usize) -> (r: UserMem)
        ensures
            r.words@.len() == n,
            forall|i: int| 0 <= i < n ==> r.words@[i] == 0,
    {
        let mut words: Vec<i32> = Vec::new();
        let mut i: usize = 0;
        while i < n
            invariant
                i <= n,
                words@.len() == i,
                forall|j: int| 0 <= j < i ==> words@[j] == 0,
            decreases n - i,
        {
            words.push(0);
            i += 1;
        }
        UserMem { words }
    }

    /// Copies one word out to user address `addr`; faults exactly when
    /// the address is outside the window.
    pub fn copy_out(&mut self, addr: usize, v: i32) -> (r: Result<(), FsError>)
        ensures
            old(self).words@.len() <= usize::MAX,
            match r {
                Ok(()) => {
                    &&& addr < old(self).words@.len()
                    &&& final(self).words@ == old(self).words@.update(addr as int, v)
                },
                Err(e) => {
                    &&& e == FsError::Fault
                    &&& addr >= old(self).words@.len()
                    &&& *final(self) == *old(self)
                },
            },
    {
        if addr < self.words.len() {
            self.words[addr] = v;
            Ok(())
        } else {
            Err(FsError::Fault)
        }
    }

    /// Reads one word of the window.
    pub fn read_word(&self, addr: usize) -> (r: i32)
        requires
            addr < self.words@.len(),
        ensures
            r == self.words@[addr as int],
    {
        self.words[addr]
    }
}

/// The calling process's context. It is owned by the process and mutated
/// only by the currently-executing operation on it.
pub struct Proc {
    /// Handle on the current working directory.
    pub cwd: RcInode,
    /// The fixed-size descriptor table.
    pub open_files: Vec<Option<RcFile>>,
    /// The user-memory window.
    pub mem: UserMem,
}

/// Every file object bound in a descriptor table points inside the
/// given inode table.
pub open spec fn files_ok(t: Seq<crate::inode::InodeV>, fds: Seq<Option<RcFile>>) -> bool {
    forall|j: int|
        0 <= j < fds.len() ==> match #[trigger] fds[j] {
            Some(f) => file_ok(t, f),
            None => true,
        }
}

/// The descriptor table has exactly `NOFILE` slots.
pub open spec fn proc_wf(p: Proc) -> bool {
    p.open_files@.len() == NOFILE
}

/// Index of the first free descriptor slot, if any.
pub open spec fn first_free_fd(fds: Seq<Option<RcFile>>) -> Option<int>
    decreases fds.len(),
{
    if fds.len() == 0 {
        None
    } else if fds[0] is None {
        Some(0)
    } else {
        match first_free_fd(fds.drop_first()) {
            Some(k) => Some(k + 1),
            None => None,
        }
    }
}

/// What `first_free_fd` finds is the first free slot.
pub proof fn lemma_first_free_fd(fds: Seq<Option<RcFile>>)
    ensures
        match first_free_fd(fds) {
            Some(k) => {
                &&& 0 <= k < fds.len()
                &&& fds[k] is None
                &&& forall|j: int| 0 <= j < k ==> #[trigger] fds[j] is Some
            },
            None => forall|j: int| 0 <= j < fds.len() ==> #[trigger] fds[j] is Some,
        },
    decreases fds.len(),
{
    if fds.len() > 0 && fds[0] is Some {
        lemma_first_free_fd(fds.drop_first());
        match first_free_fd(fds.drop_first()) {
            Some(k) => {
                assert forall|j: int| 0 <= j < k + 1 implies #[trigger] fds[j] is Some by {
                    if j > 0 {
                        assert(fds.drop_first()[j - 1] is Some);
                    }
                }
            },
            None => {
                assert forall|j: int| 0 <= j < fds.len() implies #[trigger] fds[j] is Some by {
                    if j > 0 {
                        assert(fds.drop_first()[j - 1] is Some);
                    }
                }
            },
        }
    }
}

impl Proc {
    /// A fresh process context working in `cwd`, with all descriptor
    /// slots free and a user window of `mem_words` words.
    pub fn new(cwd: RcInode, mem_words: usize) -> (r: Proc)
        ensures
            proc_wf(r),
            r.cwd == cwd,
            forall|j: int| 0 <= j < NOFILE ==> r.open_files@[j] is None,
            r.mem.words@.len() == mem_words,
    {
        let mut open_files: Vec<Option<RcFile>> = Vec::new();
        let mut i: usize = 0;
        while i < NOFILE
            invariant
                i <= NOFILE,
                open_files@.len() == i,
                forall|j: int| 0 <= j < i ==> open_files@[j] is None,
            decreases NOFILE - i,
        {
            open_files.push(None);
            i += 1;
        }
        Proc { cwd, open_files, mem: UserMem::new(mem_words) }
    }
}

impl RcFile {
    /// Binds this file object into the first free slot of the caller's
    /// descriptor table, or gives it back when every slot is taken.
    pub fn fdalloc(self, proc: &mut Proc) -> (r: Result<i32, RcFile>)
        requires
            proc_wf(*old(proc)),
        ensures
            proc_wf(*final(proc)),
            final(proc).cwd == old(proc).cwd,
            final(proc).mem == old(proc).mem,
            match r {
                Ok(fd) => {
                    &&& 0 <= fd < NOFILE
                    &&& first_free_fd(old(proc).open_files@) == Some(fd as int)
                    &&& final(proc).open_files@ == old(proc).open_files@.update(
                        fd as int,
                        Some(self),
                    )
                },
                Err(f) => {
                    &&& f == self
                    &&& first_free_fd(old(proc).open_files@) is None
                    &&& *final(proc) == *old(proc)
                },
            },
    {
        let ghost fds = proc.open_files@;
        let mut fd: usize = 0;
        while fd < NOFILE
            invariant
                proc_wf(*proc),
                *proc == *old(proc),
                fds == proc.open_files@,
                fd <= NOFILE,
                forall|j: int| 0 <= j < fd ==> #[trigger] fds[j] is Some,
            decreases NOFILE - fd,
        {
            if proc.open_files[fd].is_none() {
                proof {
                    lemma_first_free_fd(fds);
                    match first_free_fd(fds) {
                        Some(k) => {
                            if k < fd {
                                assert(fds[k] is Some);
                            }
                            if k > fd {
                                assert(fds[fd as int] is Some);
                            }
                        },
                        None => {
                            assert(fds[fd as int] is Some);
                        },
                    }
                }
                proc.open_files[fd] = Some(self);
                return Ok(fd as i32);
            }
            fd += 1;
        }
        proof {
            lemma_first_free_fd(fds);
            match first_free_fd(fds) {
                Some(k) => {
                    assert(fds[k] is Some);
                },
                None => {},
            }
        }
        Err(self)
    }
}

/// Checks descriptor `fd` of the calling process and returns the file
/// object bound there.
pub fn argfd(proc: &Proc, fd: i32) -> (r: Result<&RcFile, FsError>)
    requires
        proc_wf(*proc),
    ensures
        match r {
            Ok(f) => {
                &&& 0 <= fd < NOFILE
                &&& proc.open_files@[fd as int] == Some(*f)
            },
            Err(e) => {
                &&& e == FsError::NotFound
                &&& (fd < 0 || fd >= NOFILE || proc.open_files@[fd as int] is None)
            },
        },
{
    if fd < 0 || fd >= 16 {
        return Err(FsError::NotFound);
    }
    match &proc.open_files[fd as usize] {
        Some(f) => Ok(f),
        None => Err(FsError::NotFound),
    }
}

} // verus!
