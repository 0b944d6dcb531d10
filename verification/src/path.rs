//! Validated byte-string wrappers for path strings and single path
//! components, and the restartable tokenizer that splits a path into its
//! components, skipping redundant separators.

use vstd::prelude::*;

verus! {

/// Capacity of one directory-entry name, in bytes.
pub const DIRSIZ: usize = 14;

/// The path separator byte, `b'/'`.
pub const SLASH: u8 = 47;

/// Holds when no byte of `s` is NUL.
pub open spec fn no_nul(s: Seq<u8>) -> bool {
    forall|i: int| 0 <= i < s.len() ==> s[i] != 0
}

/// The bytes of `s`, cut down to the directory-entry name capacity.
pub open spec fn name_trunc(s: Seq<u8>) -> Seq<u8> {
    if s.len() <= DIRSIZ {
        s
    } else {
        s.take(DIRSIZ as int)
    }
}

/// Length of the leading run of non-separator bytes of `s`.
pub open spec fn elem_len(s: Seq<u8>) -> nat
    decreases s.len(),
{
    if s.len() == 0 || s[0] == SLASH {
        0
    } else {
        1 + elem_len(s.drop_first())
    }
}

pub proof fn lemma_elem_len(s: Seq<u8>)
    ensures
        elem_len(s) <= s.len(),
        forall|j: int| 0 <= j < elem_len(s) ==> s[j] != SLASH,
        elem_len(s) < s.len() ==> s[elem_len(s) as int] == SLASH,
        s.len() > 0 && s[0] != SLASH ==> elem_len(s) >= 1,
    decreases s.len(),
{
    if s.len() == 0 || s[0] == SLASH {
    } else {
        lemma_elem_len(s.drop_first());
        assert forall|j: int| 0 <= j < elem_len(s) implies s[j] != SLASH by {
            if j > 0 {
                assert(s.drop_first()[j - 1] != SLASH);
            }
        }
    }
}

/// The ordered components of a path: maximal non-separator runs, each cut
/// down to the name capacity.
pub open spec fn path_comps(s: Seq<u8>) -> Seq<Seq<u8>>
    decreases s.len(),
        via path_comps_decreases
{
    if s.len() == 0 {
        Seq::empty()
    } else if s[0] == SLASH {
        path_comps(s.drop_first())
    } else {
        seq![name_trunc(s.take(elem_len(s) as int))] + path_comps(s.skip(elem_len(s) as int))
    }
}

#[via_fn]
proof fn path_comps_decreases(s: Seq<u8>) {
    lemma_elem_len(s);
}

/// Leading separators do not change a path's components.
pub proof fn lemma_comps_skip_seps(s: Seq<u8>, i: int)
    requires
        0 <= i <= s.len(),
        forall|j: int| 0 <= j < i ==> s[j] == SLASH,
    ensures
        path_comps(s) == path_comps(s.skip(i)),
    decreases i,
{
    if i > 0 {
        assert(s.drop_first() == s.skip(1));
        lemma_comps_skip_seps(s.skip(1), i - 1);
        assert(s.skip(1).skip(i - 1) =~= s.skip(i));
    } else {
        assert(s.skip(0) =~= s);
    }
}

/// An immutable byte string holding one path component: at most `DIRSIZ`
/// bytes, none of them NUL. Longer inputs are cut down, never rejected.
pub struct FileName {
    bytes: Vec<u8>,
}

impl View for FileName {
    type V = Seq<u8>;

    closed spec fn view(&self) -> Seq<u8> {
        self.bytes@
    }
}

impl FileName {
    #[verifier::type_invariant]
    pub closed spec fn inv(self) -> bool {
        self@.len() <= DIRSIZ && no_nul(self@)
    }

    /// Builds a name from raw bytes: rejected exactly when a NUL byte is
    /// present, otherwise kept and cut down to `DIRSIZ` bytes.
    pub fn from_bytes(bytes: &[u8]) -> (r: Option<FileName>)
        ensures
            r is Some <==> no_nul(bytes@),
            r is Some ==> r.unwrap()@ == name_trunc(bytes@),
    {
        let mut i: usize = 0;
        while i < bytes.len()
            invariant
                i <= bytes.len(),
                forall|j: int| 0 <= j < i ==> bytes@[j] != 0,
            decreases bytes.len() - i,
        {
            if bytes[i] == 0 {
                return None;
            }
            i += 1;
        }
        let end = if bytes.len() > DIRSIZ {
            DIRSIZ
        } else {
            bytes.len()
        };
        let nb = copy_range(bytes, 0, end);
        proof {
            assert(bytes@.subrange(0, end as int) =~= name_trunc(bytes@));
        }
        Some(FileName { bytes: nb })
    }

    /// The component's bytes.
    pub fn as_bytes(&self) -> (r: &[u8])
        ensures
            r@ == self@,
            self@.len() <= DIRSIZ,
            no_nul(self@),
    {
        proof {
            use_type_invariant(self);
        }
        self.bytes.as_slice()
    }
}

/// The single byte of the name ".", `b'.'`.
pub const DOT: u8 = 46;

/// The bytes of the reserved name ".".
pub open spec fn dot_seq() -> Seq<u8> {
    seq![DOT]
}

/// The bytes of the reserved name "..".
pub open spec fn dotdot_seq() -> Seq<u8> {
    seq![DOT, DOT]
}

impl FileName {
    /// The empty name, as stored in a freed directory entry.
    pub fn empty() -> (r: FileName)
        ensures
            r@ == Seq::<u8>::empty(),
    {
        FileName { bytes: Vec::new() }
    }

    /// The reserved name ".".
    pub fn dot() -> (r: FileName)
        ensures
            r@ == dot_seq(),
    {
        let mut v: Vec<u8> = Vec::new();
        v.push(DOT);
        proof {
            assert(v@ =~= dot_seq());
        }
        FileName { bytes: v }
    }

    /// A byte-wise copy of the name, as stored into a directory record.
    pub fn duplicate(&self) -> (r: FileName)
        ensures
            r@ == self@,
    {
        proof {
            use_type_invariant(self);
        }
        let nb = copy_range(self.bytes.as_slice(), 0, self.bytes.len());
        proof {
            assert(nb@ =~= self@);
        }
        FileName { bytes: nb }
    }

    /// The reserved name "..".
    pub fn dotdot() -> (r: FileName)
        ensures
            r@ == dotdot_seq(),
    {
        let mut v: Vec<u8> = Vec::new();
        v.push(DOT);
        v.push(DOT);
        proof {
            assert(v@ =~= dotdot_seq());
        }
        FileName { bytes: v }
    }
}

/// Byte-wise equality of two slices.
pub(crate) fn bytes_eq(a: &[u8], b: &[u8]) -> (r: bool)
    ensures
        r <==> a@ == b@,
{
    if a.len() != b.len() {
        proof {
            assert(a@.len() != b@.len());
        }
        return false;
    }
    let mut i: usize = 0;
    while i < a.len()
        invariant
            i <= a.len(),
            a@.len() == b@.len(),
            forall|j: int| 0 <= j < i ==> a@[j] == b@[j],
        decreases a.len() - i,
    {
        if a[i] != b[i] {
            return false;
        }
        i += 1;
    }
    proof {
        assert(a@ =~= b@);
    }
    true
}

/// An immutable byte string holding a slash-separated path; none of its
/// bytes is NUL. Component length is not checked here.
pub struct Path {
    bytes: Vec<u8>,
}

impl View for Path {
    type V = Seq<u8>;

    closed spec fn view(&self) -> Seq<u8> {
        self.bytes@
    }
}

impl Path {
    #[verifier::type_invariant]
    pub closed spec fn inv(self) -> bool {
        no_nul(self@)
    }

    /// Builds a path from raw bytes: rejected exactly when a NUL byte is
    /// present.
    pub fn from_bytes(bytes: &[u8]) -> (r: Option<Path>)
        ensures
            r is Some <==> no_nul(bytes@),
            r is Some ==> r.unwrap()@ == bytes@,
    {
        let mut i: usize = 0;
        while i < bytes.len()
            invariant
                i <= bytes.len(),
                forall|j: int| 0 <= j < i ==> bytes@[j] != 0,
            decreases bytes.len() - i,
        {
            if bytes[i] == 0 {
                return None;
            }
            i += 1;
        }
        let pb = copy_range(bytes, 0, bytes.len());
        proof {
            assert(bytes@.subrange(0, bytes@.len() as int) =~= bytes@);
        }
        Some(Path { bytes: pb })
    }

    /// The path's bytes.
    pub fn as_bytes(&self) -> (r: &[u8])
        ensures
            r@ == self@,
            no_nul(self@),
    {
        proof {
            use_type_invariant(self);
        }
        self.bytes.as_slice()
    }

    /// Whether the path begins with a separator.
    pub fn is_absolute(&self) -> (r: bool)
        ensures
            r == (self@.len() > 0 && self@[0] == SLASH),
    {
        self.bytes.len() > 0 && self.bytes[0] == SLASH
    }

    /// Splits off the next path component: skips leading separators, takes
    /// the following non-separator run (cut down to the name capacity) as
    /// the component, and strips the separators after it to form the
    /// remaining path. Yields nothing when the path is empty or all
    /// separators.
    pub fn skipelem(&self) -> (r: Option<(Path, FileName)>)
        ensures
            r is None <==> path_comps(self@).len() == 0,
            r is Some ==> {
                let (rest, name) = r.unwrap();
                &&& name@ == path_comps(self@)[0]
                &&& path_comps(rest@) == path_comps(self@).drop_first()
                &&& rest@.len() < self@.len()
                &&& (rest@.len() == 0 <==> path_comps(self@).len() == 1)
            },
    {
        proof {
            use_type_invariant(self);
        }
        let b = &self.bytes;
        let mut i: usize = 0;
        while i < b.len() && b[i] == SLASH
            invariant
                i <= b.len(),
                forall|j: int| 0 <= j < i ==> b@[j] == SLASH,
            decreases b.len() - i,
        {
            i += 1;
        }
        proof {
            lemma_comps_skip_seps(b@, i as int);
        }
        if i == b.len() {
            proof {
                assert(b@.skip(i as int) =~= Seq::<u8>::empty());
            }
            return None;
        }
        let ghost tail = b@.skip(i as int);
        let start = i;
        while i < b.len() && b[i] != SLASH
            invariant
                start <= i <= b.len(),
                start < b.len(),
                b@[start as int] != SLASH,
                forall|j: int| start <= j < i ==> b@[j] != SLASH,
            decreases b.len() - i,
        {
            i += 1;
        }
        proof {
            lemma_elem_len(tail);
            assert forall|j: int| 0 <= j < i - start implies #[trigger] tail[j] != SLASH by {
                assert(tail[j] == b@[j + start]);
            }
            let el = elem_len(tail) as int;
            let k = i - start;
            if el < k {
                assert(tail[el] == SLASH);
                assert(tail[el] != SLASH);
            }
            if el > k {
                assert(k < tail.len());
                assert(tail[k] == b@[i as int]);
                assert(tail[k] == SLASH);
                assert(tail[k] != SLASH);
            }
            assert(elem_len(tail) == i - start);
        }
        let name_end = if i - start > DIRSIZ {
            start + DIRSIZ
        } else {
            i
        };
        let nb = copy_range(b.as_slice(), start, name_end);
        proof {
            let el = elem_len(tail) as int;
            assert(tail.take(el) =~= b@.subrange(start as int, i as int));
            if i - start > DIRSIZ {
                assert(b@.subrange(start as int, name_end as int) =~= tail.take(el).take(
                    DIRSIZ as int,
                ));
            }
            assert(nb@ == name_trunc(tail.take(el)));
        }
        let elem_end = i;
        while i < b.len() && b[i] == SLASH
            invariant
                elem_end <= i <= b.len(),
                forall|j: int| elem_end <= j < i ==> b@[j] == SLASH,
            decreases b.len() - i,
        {
            i += 1;
        }
        let rb = copy_range(b.as_slice(), i, b.len());
        proof {
            let el = elem_len(tail) as int;
            let after = tail.skip(el);
            assert(after =~= b@.subrange(elem_end as int, b@.len() as int));
            assert forall|j: int| 0 <= j < i - elem_end implies after[j] == SLASH by {}
            lemma_comps_skip_seps(after, i - elem_end);
            assert(after.skip(i - elem_end) =~= rb@);
            assert(path_comps(tail) == seq![name_trunc(tail.take(el))] + path_comps(after));
            assert(path_comps(rb@) =~= path_comps(b@).drop_first());
            assert(path_comps(b@)[0] == nb@);
            if rb@.len() > 0 {
                assert(rb@[0] != SLASH);
                assert(path_comps(rb@).len() >= 1);
            }
        }
        Some((Path { bytes: rb }, FileName { bytes: nb }))
    }
}

/// Copies `b[from..to]` into a fresh vector.
fn copy_range(b: &[u8], from: usize, to: usize) -> (r: Vec<u8>)
    requires
        from <= to <= b.len(),
    ensures
        r@ == b@.subrange(from as int, to as int),
{
    let mut r: Vec<u8> = Vec::new();
    let mut j = from;
    while j < to
        invariant
            from <= j <= to <= b.len(),
            r@ == b@.subrange(from as int, j as int),
        decreases to - j,
    {
        r.push(b[j]);
        proof {
            assert(b@.subrange(from as int, j + 1 as int) =~= b@.subrange(from as int, j as int).push(
                b@[j as int],
            ));
        }
        j += 1;
    }
    r
}

} // verus!
