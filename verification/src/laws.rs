//! Laws that relate several operations: idempotence of create,
//! serialization of two creates of one name, restoration of a link
//! count by link-then-unlink, and the shape a fresh directory takes.
//! Each is proved from the operations' contracts over the same spec
//! functions those contracts use.

use vstd::prelude::*;

use crate::error::FsError;
use crate::inode::{
    count_live, dir_empty, ent_match, first_free_idx, lemma_first_free_idx, lemma_lookup_idx,
    lookup_idx, put_entry, tbl_acquire, tbl_release, wf, DirentV, InodeType, InodeV,
};
use crate::kernel::{
    create_fresh_post, create_outcome, link_outcome, link_post, unlink_outcome, unlink_post,
    CreateRes, LinkRes, UnlinkRes, MAXNLINK,
};
use crate::path::{dot_seq, dotdot_seq, path_comps};
use crate::resolve::{
    is_abs, resolve_from, resolve_parent_from, start_slot, Resolution,
};

verus! {

/// How many live records of `es` carry `name`.
pub open spec fn count_matching(es: Seq<DirentV>, name: Seq<u8>) -> nat
    decreases es.len(),
{
    if es.len() == 0 {
        0
    } else {
        count_matching(es.drop_last(), name) + if ent_match(es.last(), name) {
            1nat
        } else {
            0
        }
    }
}

/// A directory without a record for `name` holds zero matches for it.
pub proof fn lemma_no_match_count(es: Seq<DirentV>, name: Seq<u8>)
    requires
        forall|j: int| 0 <= j < es.len() ==> !ent_match(#[trigger] es[j], name),
    ensures
        count_matching(es, name) == 0,
    decreases es.len(),
{
    if es.len() > 0 {
        assert(!ent_match(es[es.len() - 1], name));
        lemma_no_match_count(es.drop_last(), name);
    }
}

/// Writing one record changes only the count of its own position.
proof fn lemma_count_matching_update(es: Seq<DirentV>, k: int, e: DirentV, name: Seq<u8>)
    requires
        0 <= k < es.len(),
        !ent_match(es[k], name),
    ensures
        count_matching(es.update(k, e), name) == count_matching(es, name) + if ent_match(
            e,
            name,
        ) {
            1nat
        } else {
            0
        },
    decreases es.len(),
{
    let es1 = es.update(k, e);
    if k == es.len() - 1 {
        assert(es1.drop_last() =~= es.drop_last());
    } else {
        assert(es1.drop_last() =~= es.drop_last().update(k, e));
        assert(es1.last() == es.last());
        lemma_count_matching_update(es.drop_last(), k, e, name);
    }
}

/// Appending one record adds exactly its own match.
proof fn lemma_count_matching_push(es: Seq<DirentV>, e: DirentV, name: Seq<u8>)
    ensures
        count_matching(es.push(e), name) == count_matching(es, name) + if ent_match(e, name) {
            1nat
        } else {
            0
        },
{
    assert(es.push(e).drop_last() =~= es);
}

/// Writing a live record over a free one raises the live count by one.
proof fn lemma_count_live_update(es: Seq<DirentV>, k: int, e: DirentV)
    requires
        0 <= k < es.len(),
        es[k].inum == 0,
        e.inum != 0,
    ensures
        count_live(es.update(k, e)) == count_live(es) + 1,
    decreases es.len(),
{
    let es1 = es.update(k, e);
    if k == es.len() - 1 {
        assert(es1.drop_last() =~= es.drop_last());
    } else {
        assert(es1.drop_last() =~= es.drop_last().update(k, e));
        assert(es1.last() == es.last());
        lemma_count_live_update(es.drop_last(), k, e);
    }
}

/// Appending a live record raises the live count by one.
proof fn lemma_count_live_push(es: Seq<DirentV>, e: DirentV)
    requires
        e.inum != 0,
    ensures
        count_live(es.push(e)) == count_live(es) + 1,
{
    assert(es.push(e).drop_last() =~= es);
}

/// Writing a record for a fresh live name: lookups of other names are
/// unchanged, the new name is found with exactly the written record,
/// and both the live count and the name's match count go up by one.
pub proof fn lemma_lookup_put(es: Seq<DirentV>, name: Seq<u8>, inum: u32, other: Seq<u8>)
    requires
        lookup_idx(es, name) is None,
        inum != 0,
    ensures
        other != name ==> lookup_idx(put_entry(es, name, inum), other) == lookup_idx(es, other),
        ({
            let es1 = put_entry(es, name, inum);
            match lookup_idx(es1, name) {
                Some(k) => 0 <= k < es1.len() && es1[k] == (DirentV { name, inum }),
                None => false,
            }
        }),
        count_live(put_entry(es, name, inum)) == count_live(es) + 1,
        count_matching(put_entry(es, name, inum), name) == count_matching(es, name) + 1,
    decreases es.len(),
{
    let e = DirentV { name, inum };
    let es1 = put_entry(es, name, inum);
    lemma_lookup_idx(es, name);
    lemma_first_free_idx(es);
    match first_free_idx(es) {
        Some(k) => {
            assert(es1 == es.update(k, e));
            lemma_count_live_update(es, k, e);
            lemma_count_matching_update(es, k, e, name);
            // lookups: walk to k; positions before k are unchanged and
            // live, position k now matches name and nothing else.
            lemma_lookup_update_free(es, k, e, name, other);
        },
        None => {
            assert(es1 == es.push(e));
            lemma_count_live_push(es, e);
            lemma_count_matching_push(es, e, name);
            lemma_lookup_push(es, e, name, other);
        },
    }
}

/// Lookup across an update of a free (hence never matching) record.
proof fn lemma_lookup_update_free(es: Seq<DirentV>, k: int, e: DirentV, name: Seq<u8>, other: Seq<
    u8,
>)
    requires
        0 <= k < es.len(),
        es[k].inum == 0,
        e == (DirentV { name, inum: e.inum }),
        e.inum != 0,
        lookup_idx(es, name) is None,
    ensures
        other != name ==> lookup_idx(es.update(k, e), other) == lookup_idx(es, other),
        lookup_idx(es.update(k, e), name) == Some(k),
    decreases es.len(),
{
    let es1 = es.update(k, e);
    if k == 0 {
        assert(es1[0] == e);
        assert(es1.drop_first() =~= es.drop_first());
        assert(!ent_match(es[0], other));
        assert(!ent_match(es[0], name));
    } else {
        assert(es1[0] == es[0]);
        assert(es1.drop_first() =~= es.drop_first().update(k - 1, e));
        if !ent_match(es[0], name) {
            lemma_lookup_update_free(es.drop_first(), k - 1, e, name, other);
        }
    }
}

/// Lookup across a push: an existing first match stays first; a fresh
/// match can only be the new last record.
proof fn lemma_lookup_push(es: Seq<DirentV>, e: DirentV, name: Seq<u8>, other: Seq<u8>)
    requires
        e == (DirentV { name, inum: e.inum }),
        e.inum != 0,
        lookup_idx(es, name) is None,
    ensures
        other != name ==> lookup_idx(es.push(e), other) == lookup_idx(es, other),
        lookup_idx(es.push(e), name) == Some(es.len() as int),
    decreases es.len(),
{
    let es1 = es.push(e);
    if es.len() == 0 {
        assert(es1[0] == e);
        assert(es1.drop_first() =~= Seq::<DirentV>::empty());
    } else {
        assert(es1[0] == es[0]);
        assert(es1.drop_first() =~= es.drop_first().push(e));
        if !ent_match(es[0], name) {
            lemma_lookup_push(es.drop_first(), e, name, other);
        }
    }
}

/// Writing a record for a fresh name into one directory, with any
/// number of fresh inodes appended past the old table, never changes
/// where a descent that succeeded before now goes.
pub proof fn lemma_resolve_stable(
    t: Seq<InodeV>,
    t1: Seq<InodeV>,
    dp: int,
    name: Seq<u8>,
    inum: u32,
    cur: int,
    comps: Seq<Seq<u8>>,
)
    requires
        wf(t),
        0 <= dp < t.len(),
        1 <= cur < t.len(),
        inum != 0,
        lookup_idx(t[dp].entries, name) is None,
        t1.len() >= t.len(),
        forall|s: int|
            0 <= s < t.len() && s != dp ==> (#[trigger] t1[s]).typ == t[s].typ && t1[s].entries
                == t[s].entries,
        t1[dp].typ == t[dp].typ,
        t1[dp].entries == put_entry(t[dp].entries, name, inum),
    ensures
        resolve_parent_from(t, cur, comps) matches Resolution::Found(q) ==> resolve_parent_from(
            t1,
            cur,
            comps,
        ) == resolve_parent_from(t, cur, comps),
        resolve_from(t, cur, comps) matches Resolution::Found(q) ==> resolve_from(t1, cur, comps)
            == resolve_from(t, cur, comps),
    decreases comps.len(),
{
    if comps.len() == 0 {
    } else {
        assert(t1[cur].typ == t[cur].typ);
        if t[cur].typ is Dir {
            match lookup_idx(t[cur].entries, comps[0]) {
                Some(k) => {
                    lemma_lookup_idx(t[cur].entries, comps[0]);
                    if cur == dp {
                        // the looked-up name cannot be the fresh one
                        lemma_lookup_idx(t[dp].entries, name);
                        assert(comps[0] != name);
                        lemma_lookup_put(t[dp].entries, name, inum, comps[0]);
                        lemma_first_free_idx(t[dp].entries);
                        match first_free_idx(t[dp].entries) {
                            Some(f) => {
                                assert(t[dp].entries[f].inum == 0);
                                assert(ent_match(t[cur].entries[k], comps[0]));
                                assert(f != k);
                                assert(t1[cur].entries[k] == t[cur].entries[k]);
                            },
                            None => {
                                assert(t1[cur].entries[k] == t[cur].entries[k]);
                            },
                        }
                    }
                    assert(lookup_idx(t1[cur].entries, comps[0]) == lookup_idx(
                        t[cur].entries,
                        comps[0],
                    ));
                    assert(t1[cur].entries[k] == t[cur].entries[k]);
                    assert(crate::inode::entry_ok(t, t[cur].entries[k]));
                    let nxt = t[cur].entries[k].inum as int;
                    lemma_resolve_stable(t, t1, dp, name, inum, nxt, comps.drop_first());
                },
                None => {},
            }
        }
    }
}

/// Creating a regular file is idempotent: when a create would freshly
/// create `p`, then after it has run, a second create of the same path
/// reuses exactly the inode the first one made, and the second run
/// leaves the parent's live record count — raised by one by the first
/// run — unchanged.
pub proof fn lemma_create_idempotent(t: Seq<InodeV>, cwd: int, p: Seq<u8>)
    requires
        wf(t),
        1 <= cwd < t.len(),
        create_outcome(t, cwd, p, InodeType::File) matches CreateRes::Fresh(_),
    ensures
        ({
            let oc = create_outcome(t, cwd, p, InodeType::File);
            match oc {
                CreateRes::Fresh(dp) => {
                    let name = path_comps(p).last();
                    let n = t.len() as int;
                    let t1 = create_fresh_post(t, dp, name, InodeType::File);
                    &&& create_outcome(t1, cwd, p, InodeType::File) == CreateRes::Reuse(n)
                    &&& count_live(t1[dp].entries) == count_live(t[dp].entries) + 1
                    &&& tbl_acquire(t1, n)[dp].entries == t1[dp].entries
                },
                _ => true,
            }
        }),
{
    let start = start_slot(is_abs(p), cwd);
    let comps = path_comps(p);
    match create_outcome(t, cwd, p, InodeType::File) {
        CreateRes::Fresh(dp) => {
            let name = comps.last();
            let n = t.len() as int;
            let t1 = create_fresh_post(t, dp, name, InodeType::File);
            crate::resolve::lemma_resolve_valid(t, start, comps);
            assert(resolve_parent_from(t, start, comps) == Resolution::Found(dp));
            assert(t1[dp].entries == put_entry(t[dp].entries, name, n as u32));
            lemma_resolve_stable(t, t1, dp, name, n as u32, start, comps);
            assert(resolve_parent_from(t1, start, comps) == Resolution::Found(dp));
            lemma_lookup_put(t[dp].entries, name, n as u32, name);
            match lookup_idx(t1[dp].entries, name) {
                Some(k) => {
                    assert(t1[dp].entries[k] == (DirentV { name, inum: n as u32 }));
                    assert(t1[n].typ is File);
                    assert(create_outcome(t1, cwd, p, InodeType::File) == CreateRes::Reuse(n));
                },
                None => {
                    assert(false);
                },
            }
        },
        _ => {},
    }
}

/// Two creates of the same name in the same directory, run one after
/// the other as the per-inode guards force them to be: exactly the
/// first observes a fresh inode, the second is answered with that same
/// inode, and the directory ends with exactly one live record carrying
/// the name.
pub proof fn lemma_create_serialized(t: Seq<InodeV>, cwd: int, p: Seq<u8>)
    requires
        wf(t),
        1 <= cwd < t.len(),
        create_outcome(t, cwd, p, InodeType::File) matches CreateRes::Fresh(_),
    ensures
        ({
            let oc = create_outcome(t, cwd, p, InodeType::File);
            match oc {
                CreateRes::Fresh(dp) => {
                    let name = path_comps(p).last();
                    let n = t.len() as int;
                    let t1 = create_fresh_post(t, dp, name, InodeType::File);
                    &&& create_outcome(t1, cwd, p, InodeType::File) == CreateRes::Reuse(n)
                    &&& count_matching(t1[dp].entries, name) == 1
                    &&& tbl_acquire(t1, n)[dp].entries == t1[dp].entries
                },
                _ => true,
            }
        }),
{
    lemma_create_idempotent(t, cwd, p);
    match create_outcome(t, cwd, p, InodeType::File) {
        CreateRes::Fresh(dp) => {
            let name = path_comps(p).last();
            let n = t.len() as int;
            let start = start_slot(is_abs(p), cwd);
            crate::resolve::lemma_resolve_valid(t, start, path_comps(p));
            lemma_lookup_idx(t[dp].entries, name);
            lemma_no_match_count(t[dp].entries, name);
            lemma_lookup_put(t[dp].entries, name, n as u32, name);
        },
        _ => {},
    }
}

/// Linking a name and then unlinking that same name restores the
/// target's original link count. The new name must not be one of the
/// reserved names "." and "..", which unlink refuses.
pub proof fn lemma_link_unlink_restores(t: Seq<InodeV>, cwd: int, oldp: Seq<u8>, newp: Seq<u8>)
    requires
        wf(t),
        1 <= cwd < t.len(),
        link_outcome(t, cwd, oldp, newp) matches LinkRes::Linked(_, _),
        path_comps(newp).last() != dot_seq(),
        path_comps(newp).last() != dotdot_seq(),
    ensures
        ({
            let oc = link_outcome(t, cwd, oldp, newp);
            match oc {
                LinkRes::Linked(i, dp) => {
                    let name = path_comps(newp).last();
                    let t1 = link_post(t, i, dp, name);
                    match unlink_outcome(t1, cwd, newp) {
                        UnlinkRes::Unlinked(dp2, off, i2) => {
                            &&& dp2 == dp
                            &&& i2 == i
                            &&& unlink_post(t1, dp2, off, i2)[i].nlink == t[i].nlink
                        },
                        UnlinkRes::Failed(_) => false,
                    }
                },
                _ => true,
            }
        }),
{
    let startn = start_slot(is_abs(newp), cwd);
    let comps = path_comps(newp);
    match link_outcome(t, cwd, oldp, newp) {
        LinkRes::Linked(i, dp) => {
            let starto = start_slot(is_abs(oldp), cwd);
            crate::resolve::lemma_resolve_valid(t, starto, path_comps(oldp));
            crate::resolve::lemma_resolve_valid(t, startn, comps);
            let name = comps.last();
            let t1 = link_post(t, i, dp, name);
            assert(t[dp].typ is Dir);
            assert(!(t[i].typ is Dir));
            assert(dp != i);
            assert(t1[dp].entries == put_entry(t[dp].entries, name, i as u32));
            lemma_resolve_stable(t, t1, dp, name, i as u32, startn, comps);
            assert(resolve_parent_from(t1, startn, comps) == Resolution::Found(dp));
            lemma_lookup_put(t[dp].entries, name, i as u32, name);
            match lookup_idx(t1[dp].entries, name) {
                Some(k) => {
                    assert(t1[dp].entries[k] == (DirentV { name, inum: i as u32 }));
                    assert(!(t1[i].typ is Dir));
                    assert(unlink_outcome(t1, cwd, newp) == UnlinkRes::Unlinked(dp, k, i));
                    assert(unlink_post(t1, dp, k, i)[i].nlink == t[i].nlink);
                },
                None => {
                    assert(false);
                },
            }
        },
        _ => {},
    }
}

/// A link whose target and new parent live on different devices always
/// fails with CrossDevice; by link's contract a failure leaves the
/// table — the target's link count included — exactly as it was.
pub proof fn lemma_link_cross_device(
    t: Seq<InodeV>,
    cwd: int,
    oldp: Seq<u8>,
    newp: Seq<u8>,
    i: int,
    dp: int,
)
    requires
        wf(t),
        1 <= cwd < t.len(),
        resolve_from(t, start_slot(is_abs(oldp), cwd), path_comps(oldp)) == Resolution::Found(i),
        !(t[i].typ is Dir),
        t[i].nlink < MAXNLINK,
        resolve_parent_from(t, start_slot(is_abs(newp), cwd), path_comps(newp))
            == Resolution::Found(dp),
        t[dp].dev != t[i].dev,
    ensures
        link_outcome(t, cwd, oldp, newp) == LinkRes::Failed(FsError::CrossDevice),
{
}

/// Unlinking "." or ".." through an existing parent directory always
/// fails with InvalidName, whatever the directory holds.
pub proof fn lemma_unlink_reserved_name(t: Seq<InodeV>, cwd: int, p: Seq<u8>)
    requires
        resolve_parent_from(t, start_slot(is_abs(p), cwd), path_comps(p)) matches
            Resolution::Found(_),
        path_comps(p).last() == dot_seq() || path_comps(p).last() == dotdot_seq(),
    ensures
        unlink_outcome(t, cwd, p) == UnlinkRes::Failed(FsError::InvalidName),
{
}

/// Unlinking a directory that holds any live record beyond its first
/// two always fails with NotEmpty; by unlink's contract the failure
/// mutates nothing.
pub proof fn lemma_unlink_not_empty(t: Seq<InodeV>, cwd: int, p: Seq<u8>, dp: int, off: int)
    requires
        resolve_parent_from(t, start_slot(is_abs(p), cwd), path_comps(p)) == Resolution::Found(
            dp,
        ),
        path_comps(p).last() != dot_seq(),
        path_comps(p).last() != dotdot_seq(),
        lookup_idx(t[dp].entries, path_comps(p).last()) == Some(off),
        t[t[dp].entries[off].inum as int].typ is Dir,
        !dir_empty(t[t[dp].entries[off].inum as int].entries),
    ensures
        unlink_outcome(t, cwd, p) == UnlinkRes::Failed(FsError::NotEmpty),
{
}

/// A freshly made directory points "." at itself and ".." at its
/// parent, and the parent's link count has gone up by exactly one.
pub proof fn lemma_mkdir_fresh(t: Seq<InodeV>, cwd: int, p: Seq<u8>)
    requires
        wf(t),
        1 <= cwd < t.len(),
        create_outcome(t, cwd, p, InodeType::Dir) matches CreateRes::Fresh(_),
    ensures
        ({
            let oc = create_outcome(t, cwd, p, InodeType::Dir);
            match oc {
                CreateRes::Fresh(dp) => {
                    let name = path_comps(p).last();
                    let n = t.len() as int;
                    let tf = tbl_release(create_fresh_post(t, dp, name, InodeType::Dir), n);
                    &&& tf[n].typ is Dir
                    &&& tf[dp].nlink == t[dp].nlink + 1
                    &&& resolve_from(tf, n, seq![dot_seq()]) == Resolution::Found(n)
                    &&& resolve_from(tf, n, seq![dotdot_seq()]) == Resolution::Found(dp)
                },
                _ => true,
            }
        }),
{
    match create_outcome(t, cwd, p, InodeType::Dir) {
        CreateRes::Fresh(dp) => {
            let start = start_slot(is_abs(p), cwd);
            crate::resolve::lemma_resolve_valid(t, start, path_comps(p));
            let name = path_comps(p).last();
            let n = t.len() as int;
            let tf = tbl_release(create_fresh_post(t, dp, name, InodeType::Dir), n);
            let dot_e = DirentV { name: dot_seq(), inum: n as u32 };
            let dotdot_e = DirentV { name: dotdot_seq(), inum: dp as u32 };
            assert(put_entry(Seq::<DirentV>::empty(), dot_seq(), n as u32) =~= seq![dot_e]);
            assert(first_free_idx(seq![dot_e]) is None) by {
                assert(seq![dot_e].drop_first() =~= Seq::<DirentV>::empty());
            }
            assert(put_entry(seq![dot_e], dotdot_seq(), dp as u32) =~= seq![dot_e, dotdot_e]);
            assert(tf[n].entries =~= seq![dot_e, dotdot_e]);
            assert(dot_seq().len() == 1 && dotdot_seq().len() == 2);
            assert(lookup_idx(tf[n].entries, dot_seq()) == Some(0int));
            assert(lookup_idx(tf[n].entries, dotdot_seq()) == Some(1int)) by {
                assert(tf[n].entries.drop_first() =~= seq![dotdot_e]);
                assert(!ent_match(dot_e, dotdot_seq()));
                assert(lookup_idx(seq![dotdot_e], dotdot_seq()) == Some(0int));
            }
            assert(seq![dot_seq()].drop_first() =~= Seq::<Seq<u8>>::empty());
            assert(seq![dotdot_seq()].drop_first() =~= Seq::<Seq<u8>>::empty());
            assert(tf[n].typ is Dir);
            assert(resolve_from(tf, n, Seq::<Seq<u8>>::empty()) == Resolution::Found(n));
            assert(resolve_from(tf, dp, Seq::<Seq<u8>>::empty()) == Resolution::Found(dp));
            assert(tf[n].entries[0].inum == n as u32);
            assert(tf[n].entries[1].inum == dp as u32);
            assert(resolve_from(tf, n, seq![dot_seq()]) == Resolution::Found(n));
            assert(resolve_from(tf, n, seq![dotdot_seq()]) == Resolution::Found(dp));
        },
        _ => {},
    }
}

} // verus!
