//! What holds of the file system's tables whatever is asked of it: which fids it holds, when it drops
//! them, and what it tells the kernel.

use crate::attrs::ROOT_INO;
use crate::calls;
use crate::calls::{CallOf, ENOENT};
use crate::client;
use crate::frame;
use crate::fuse9p;
use crate::fuse9p::IO_HEADROOM;
use crate::ninep;
use crate::readdirplus;
use crate::readdirplus::PlusStepOf;
use crate::step;
use crate::step::{DrainOp, OpOf, ReplyOf, StepOf};
use crate::tuning::Tuning;
use crate::writeback;
use vstd::prelude::*;

verus! {

/// The root inode is there, every inode is referred to, every handle was numbered before the next
/// one, and a handle that defers writes lets at least one be in flight.
pub open spec fn sound(s: fuse9p::FsView) -> bool {
    &&& s.inodes.contains_key(ROOT_INO)
    &&& forall|i: u64| #[trigger] s.inodes.contains_key(i) ==> s.inodes[i].lookups >= 1
    &&& forall|h: u64| #[trigger] s.handles.contains_key(h) ==> 1 <= h < s.next_fh
    &&& forall|h: u64|
        s.handles.contains_key(h) ==> ((#[trigger] s.handles[h]).depth matches Some(d) ==> d >= 1)
    &&& s.next_fh >= 1
}

/// A mount starts sound, and holds just the root's fid.
pub proof fn mounts_sound(msize: u32, root_fid: u32, root_qid_path: u64, tuning: Tuning)
    ensures
        sound(fuse9p::mounted(msize, root_fid, root_qid_path, tuning)),
        exclusive(fuse9p::mounted(msize, root_fid, root_qid_path, tuning)),
        forall|fid: u32| #[trigger]
            holds(fuse9p::mounted(msize, root_fid, root_qid_path, tuning), fid) <==> fid
                == root_fid,
{
    let s = fuse9p::mounted(msize, root_fid, root_qid_path, tuning);
    assert(s.inodes.contains_key(ROOT_INO) && s.inodes[ROOT_INO].fid == root_fid);
}

/// Whatever comes of a call, the tables stay sound.
pub proof fn resuming_keeps_sound(
    s: fuse9p::FsView,
    nf: u32,
    op: step::OpView,
    o: calls::Outcome,
)
    requires
        sound(s),
        s.next_fh < u64::MAX,
    ensures
        sound(fuse9p::resumed(s, nf, op, o).fs),
{
}

/// Forgetting, closing and handing over directory entries keep the tables sound; so the root inode
/// is never dropped.
pub proof fn dropping_keeps_sound(
    s: fuse9p::FsView,
    ino: u64,
    n: u64,
    fh: u64,
    p: readdirplus::PlusView,
    fits: bool,
)
    requires
        sound(s),
    ensures
        sound(fuse9p::forgotten(s, ino, n).0),
        sound(fuse9p::release_started(s, fh).0),
        sound(fuse9p::releasedir_started(s, fh).0),
        sound(readdirplus::offered(s, p, fits).0),
{
}

/// A handle gets a number that no open handle has, and leaves the others alone.
pub proof fn handles_are_fresh(s: fuse9p::FsView, fid: u32, writable: bool)
    requires
        sound(s),
        s.next_fh < u64::MAX,
    ensures
        !s.handles.contains_key(s.next_fh),
        s.opened(fid, writable).handles[s.next_fh].fid == fid,
        s.opened(fid, writable).handles.remove(s.next_fh) == s.handles,
{
    assert(s.opened(fid, writable).handles.remove(s.next_fh) =~= s.handles);
}

/// Giving back the reference that a lookup made undoes the lookup, and drops the fid if the lookup
/// had brought it in.
pub proof fn forget_undoes_lookup(s: fuse9p::FsView, ino: u64, fid: u32)
    requires
        ino != ROOT_INO,
        s.inodes.contains_key(ino) ==> 1 <= s.inodes[ino].lookups < u64::MAX,
    ensures
        fuse9p::forgotten(s.looked_up(ino, fid), ino, 1) == (
            s,
            if s.inodes.contains_key(ino) {
                Seq::<u32>::empty()
            } else {
                seq![fid]
            },
        ),
{
    let back = fuse9p::forgotten(s.looked_up(ino, fid), ino, 1);
    assert(back.0.inodes =~= s.inodes);
    assert(back.0 =~= s);
}

/// An inode is dropped when as many references were given back as were made, and not before.
pub proof fn inode_lives_while_referred(s: fuse9p::FsView, ino: u64, n: u64)
    requires
        ino != ROOT_INO,
        s.inodes.contains_key(ino),
    ensures
        fuse9p::forgotten(s, ino, n).0.inodes.contains_key(ino) <==> n < s.inodes[ino].lookups,
        fuse9p::forgotten(s, ino, n).1 == if n < s.inodes[ino].lookups {
            Seq::<u32>::empty()
        } else {
            seq![s.inodes[ino].fid]
        },
        forall|other: u64|
            other != ino && s.inodes.contains_key(other) ==> {
                &&& fuse9p::forgotten(s, ino, n).0.inodes.contains_key(other)
                &&& #[trigger] fuse9p::forgotten(s, ino, n).0.inodes[other] == s.inodes[other]
            },
{
}

/// A refused call is told the kernel with the server's error, and changes nothing. The exceptions
/// are a name that is not there, which is remembered where the knob is on, and the walk after a
/// rename that was done already.
pub proof fn refusals_are_told(s: fuse9p::FsView, nf: u32, op: step::OpView, e: i32)
    requires
        !(op is RenameWalk),
        (op is LookupWalk || op is LookupAttr) ==> e != ENOENT || s.tuning.negative_ttl is None,
    ensures
        fuse9p::resumed(s, nf, op, Err(e)).fs == s,
        fuse9p::resumed(s, nf, op, Err(e)).step matches StepOf::Finish { reply, .. }
            && reply == ReplyOf::<Seq<u8>, Seq<step::DirItemView>>::Error(e),
{
}

/// A lookup of a name that is not there is answered with inode 0, for as long as the knob says, so
/// that the kernel remembers it.
pub proof fn misses_are_remembered(s: fuse9p::FsView, nf: u32, newfid: u32)
    requires
        s.tuning.negative_ttl is Some,
    ensures
        fuse9p::resumed(s, nf, OpOf::LookupWalk { newfid }, Err(ENOENT)).step
            matches StepOf::Finish { reply: ReplyOf::Entry { ttl, attr }, .. } && attr.ino == 0
            && ttl == s.tuning.negative_ttl->0,
        fuse9p::resumed(s, nf, OpOf::LookupWalk { newfid }, Err(ENOENT)).fs == s,
{
}

/// After a rename the moved inode goes by a fid that was walked to its new name, so that it can be
/// read and opened on; the stale fid is dropped, and everything else stays.
pub proof fn rename_refreshes_the_inode(
    s: fuse9p::FsView,
    nf: u32,
    freshfid: u32,
    o: calls::Outcome,
)
    requires
        step::walked_to(o) is Ok,
        s.inodes.contains_key(s.intern(step::walked_to(o)->Ok_0)),
    ensures
        ({
            let ino = s.intern(step::walked_to(o)->Ok_0);
            let m = fuse9p::resumed(s, nf, OpOf::RenameWalk { freshfid }, o);
            &&& m.fs.fid_of(ino) == Some(freshfid)
            &&& m.fs.inodes[ino].lookups == s.inodes[ino].lookups
            &&& m.step == StepOf::Finish::<
                calls::CallView,
                step::OpView,
                writeback::JobView,
                Seq<step::WantedView>,
                Seq<u32>,
                step::ReplyView,
            > { clunks: seq![s.inodes[ino].fid], reply: ReplyOf::Empty }
            &&& m.fs.inodes.remove(ino) == s.inodes.remove(ino)
            &&& m.fs.handles == s.handles
        }),
{
    let ino = s.intern(step::walked_to(o)->Ok_0);
    let m = fuse9p::resumed(s, nf, OpOf::RenameWalk { freshfid }, o);
    assert(m.fs.inodes.remove(ino) =~= s.inodes.remove(ino));
}

/// A file is listed under the inode number under which it is looked up.
pub proof fn listing_agrees_with_lookup(
    s: fuse9p::FsView,
    nf: u32,
    newfid: u32,
    e: ninep::DirEntryView,
    a: ninep::Attr,
)
    requires
        e.qid.path == a.qid.path,
    ensures
        fuse9p::lookup_found(s, nf, newfid, a).step matches StepOf::Finish {
            reply: ReplyOf::Entry { attr, .. },
            ..
        } && attr.ino == fuse9p::dir_item(s, e).ino,
        readdirplus::plus_item(s, e, a).ino == fuse9p::dir_item(s, e).ino,
{
}

/// The fids that the tables hold.
pub open spec fn holds(s: fuse9p::FsView, fid: u32) -> bool {
    ||| exists|i: u64| s.inodes.contains_key(i) && #[trigger] s.inodes[i].fid == fid
    ||| exists|h: u64| s.handles.contains_key(h) && #[trigger] s.handles[h].fid == fid
}

/// The fids that a waiting request has made for itself.
pub open spec fn carries(op: step::OpView, fid: u32) -> bool {
    match op {
        OpOf::LookupWalk { newfid } => fid == newfid,
        OpOf::LookupAttr { newfid } => fid == newfid,
        OpOf::OpenClone { newfid, .. } => fid == newfid,
        OpOf::Open { newfid, .. } => fid == newfid,
        OpOf::CreateClone { openfid, basefid, .. } => fid == openfid || fid == basefid,
        OpOf::Create { openfid, basefid, .. } => fid == openfid || fid == basefid,
        OpOf::CreateWalk { openfid, basefid } => fid == openfid || fid == basefid,
        OpOf::CreateAttr { openfid, basefid } => fid == openfid || fid == basefid,
        OpOf::Make { basefid, .. } => fid == basefid,
        OpOf::MakeWalk { basefid } => fid == basefid,
        OpOf::MakeAttr { basefid } => fid == basefid,
        OpOf::RenameWalk { freshfid } => fid == freshfid,
        _ => false,
    }
}

/// The fids that a step still has in hand: carried on, about to be fetched through, or dropped.
pub open spec fn in_hand(st: step::StepView, fid: u32) -> bool {
    match st {
        StepOf::Call { op, .. } => carries(op, fid),
        StepOf::Drain { op, .. } => op == (DrainOp::Release { fid }),
        StepOf::Defer { .. } => false,
        StepOf::Prefetch { wanted, .. } => exists|i: int|
            0 <= i < wanted.len() && #[trigger] wanted[i].fid == fid,
        StepOf::Finish { clunks, .. } => clunks.contains(fid),
    }
}

/// Whether a request ends by making an inode that the kernel holds already. Then the new fid takes
/// the place of the one that the inode had.
pub open spec fn remakes(s: fuse9p::FsView, op: step::OpView, o: calls::Outcome) -> bool {
    &&& op is CreateAttr || op is MakeAttr
    &&& step::attr_of(o) matches Ok(a) && s.inodes.contains_key(s.intern(a.qid.path))
}

/// Unless a request makes an inode anew that the kernel holds already, no fid is lost: what the tables
/// held and what the request carried is still held, carried on, or dropped. In the case left out, the
/// fid that the inode had is replaced and not dropped.
pub proof fn no_fid_is_lost(
    s: fuse9p::FsView,
    nf: u32,
    op: step::OpView,
    o: calls::Outcome,
    fid: u32,
)
    requires
        sound(s),
        s.next_fh < u64::MAX,
        !remakes(s, op, o),
        holds(s, fid) || carries(op, fid),
    ensures
        holds(fuse9p::resumed(s, nf, op, o).fs, fid) || in_hand(
            fuse9p::resumed(s, nf, op, o).step,
            fid,
        ),
{
    let m = fuse9p::resumed(s, nf, op, o);
    if holds(s, fid) {
        lemma_held_stays(s, nf, op, o, fid);
    } else {
        lemma_carried_stays(s, nf, op, o, fid);
    }
}

proof fn lemma_held_stays(
    s: fuse9p::FsView,
    nf: u32,
    op: step::OpView,
    o: calls::Outcome,
    fid: u32,
)
    requires
        sound(s),
        s.next_fh < u64::MAX,
        !remakes(s, op, o),
        holds(s, fid),
    ensures
        holds(fuse9p::resumed(s, nf, op, o).fs, fid) || in_hand(
            fuse9p::resumed(s, nf, op, o).step,
            fid,
        ),
{
    let m = fuse9p::resumed(s, nf, op, o);
    if exists|i: u64| s.inodes.contains_key(i) && #[trigger] s.inodes[i].fid == fid {
        let i = choose|i: u64| s.inodes.contains_key(i) && #[trigger] s.inodes[i].fid == fid;
        if m.fs.inodes.contains_key(i) && m.fs.inodes[i].fid == fid {
        } else {
            assert(op is RenameWalk);
            assert(m.step->clunks[0] == fid);
        }
    } else {
        let h = choose|h: u64| s.handles.contains_key(h) && #[trigger] s.handles[h].fid == fid;
        assert(m.fs.handles.contains_key(h) && m.fs.handles[h].fid == fid);
    }
}

proof fn lemma_carried_stays(
    s: fuse9p::FsView,
    nf: u32,
    op: step::OpView,
    o: calls::Outcome,
    fid: u32,
)
    requires
        sound(s),
        s.next_fh < u64::MAX,
        carries(op, fid),
    ensures
        holds(fuse9p::resumed(s, nf, op, o).fs, fid) || in_hand(
            fuse9p::resumed(s, nf, op, o).step,
            fid,
        ),
{
    let m = fuse9p::resumed(s, nf, op, o);
    match m.step {
        StepOf::Finish { clunks, .. } => {
            if clunks.len() > 0 && clunks[0] == fid {
                assert(clunks.contains(fid));
            } else if clunks.len() > 1 && clunks[1] == fid {
                assert(clunks.contains(fid));
            } else {
                match op {
                    OpOf::LookupAttr { newfid } => {
                        let ino = s.intern(step::attr_of(o)->Ok_0.qid.path);
                        assert(m.fs.inodes.contains_key(ino) && m.fs.inodes[ino].fid == fid);
                    },
                    OpOf::MakeAttr { basefid } => {
                        let ino = s.intern(step::attr_of(o)->Ok_0.qid.path);
                        assert(m.fs.inodes.contains_key(ino) && m.fs.inodes[ino].fid == fid);
                    },
                    OpOf::CreateAttr { openfid, basefid } => {
                        let ino = s.intern(step::attr_of(o)->Ok_0.qid.path);
                        if fid == basefid {
                            assert(m.fs.inodes.contains_key(ino) && m.fs.inodes[ino].fid == fid);
                        } else {
                            assert(m.fs.handles.contains_key(s.next_fh)
                                && m.fs.handles[s.next_fh].fid == fid);
                        }
                    },
                    OpOf::Open { newfid, .. } => {
                        assert(m.fs.handles.contains_key(s.next_fh)
                            && m.fs.handles[s.next_fh].fid == fid);
                    },
                    OpOf::RenameWalk { freshfid } => {
                        let ino = s.intern(step::walked_to(o)->Ok_0);
                        assert(m.fs.inodes.contains_key(ino) && m.fs.inodes[ino].fid == fid);
                    },
                    _ => {},
                }
            }
        },
        _ => {},
    }
}

/// Every fid that the tables hold is held once.
pub open spec fn exclusive(s: fuse9p::FsView) -> bool {
    &&& forall|i: u64, j: u64|
        #![trigger s.inodes[i].fid, s.inodes[j].fid]
        s.inodes.contains_key(i) && s.inodes.contains_key(j) && i != j ==> s.inodes[i].fid
            != s.inodes[j].fid
    &&& forall|h: u64, k: u64|
        #![trigger s.handles[h].fid, s.handles[k].fid]
        s.handles.contains_key(h) && s.handles.contains_key(k) && h != k ==> s.handles[h].fid
            != s.handles[k].fid
    &&& forall|i: u64, h: u64|
        #![trigger s.inodes[i].fid, s.handles[h].fid]
        s.inodes.contains_key(i) && s.handles.contains_key(h) ==> s.inodes[i].fid
            != s.handles[h].fid
}

/// What a waiting request carries is its own: the tables do not hold it, and it was handed out before
/// `nf`, as everything in the tables was.
pub open spec fn apart(s: fuse9p::FsView, nf: u32, op: step::OpView) -> bool {
    &&& exclusive(s)
    &&& forall|fid: u32| #[trigger] holds(s, fid) ==> fid < nf
    &&& forall|fid: u32| #[trigger] carries(op, fid) ==> fid < nf && !holds(s, fid)
    &&& match op {
        OpOf::CreateClone { openfid, basefid, .. } => openfid != basefid,
        OpOf::Create { openfid, basefid, .. } => openfid != basefid,
        OpOf::CreateWalk { openfid, basefid } => openfid != basefid,
        OpOf::CreateAttr { openfid, basefid } => openfid != basefid,
        _ => true,
    }
}

/// How many fids going on with a request hands out.
pub open spec fn fids_taken(op: step::OpView, o: calls::Outcome) -> nat {
    match (op, o) {
        (OpOf::Rename { .. }, Ok(_)) => 1,
        (OpOf::ReaddirPlus { .. }, _) => match step::entries_of(o) {
            Ok(entries) => entries.len(),
            Err(_) => 0,
        },
        _ => 0,
    }
}

proof fn lemma_nth_fid(nf: u32, k: nat)
    requires
        nf + k <= u32::MAX,
    ensures
        fuse9p::nth_fid(nf, k) == nf + k,
    decreases k,
{
    if k > 0 {
        lemma_nth_fid(nf, (k - 1) as nat);
    }
}

/// A fid that a step drops, or that it works with on its own, is not held by the tables: no dropped
/// fid is ever used again, until the numbers start over.
pub proof fn dropped_fids_are_not_held(
    s: fuse9p::FsView,
    nf: u32,
    op: step::OpView,
    o: calls::Outcome,
)
    requires
        sound(s),
        s.next_fh < u64::MAX,
        apart(s, nf, op),
        nf + fids_taken(op, o) <= u32::MAX,
    ensures
        ({
            let m = fuse9p::resumed(s, nf, op, o);
            &&& exclusive(m.fs)
            &&& m.next_fid == nf + fids_taken(op, o)
            &&& forall|fid: u32| #[trigger] holds(m.fs, fid) ==> fid < m.next_fid
            &&& forall|fid: u32| #[trigger]
                in_hand(m.step, fid) ==> fid < m.next_fid && !holds(m.fs, fid)
            &&& m.step matches StepOf::Call { op: next, .. } ==> apart(m.fs, m.next_fid, next)
        }),
{
    let m = fuse9p::resumed(s, nf, op, o);
    lemma_held_by(s, op, o, nf);
    assert(m.next_fid == nf + fids_taken(op, o)) by {
        lemma_nth_fid(nf, fids_taken(op, o));
    }
    lemma_stays_exclusive(s, nf, op, o);
    assert forall|fid: u32| #[trigger] in_hand(m.step, fid) implies fid < m.next_fid && !holds(
        m.fs,
        fid,
    ) by {
        lemma_in_hand_apart(s, nf, op, o, fid);
    }
    if let StepOf::Call { op: next, .. } = m.step {
        assert forall|fid: u32| #[trigger] carries(next, fid) implies fid < m.next_fid && !holds(
            m.fs,
            fid,
        ) by {
            assert(in_hand(m.step, fid));
        }
    }
}

/// What the tables hold after a step, they held before or the request carried.
proof fn lemma_held_by(s: fuse9p::FsView, op: step::OpView, o: calls::Outcome, nf: u32)
    ensures
        forall|fid: u32| #[trigger]
            holds(fuse9p::resumed(s, nf, op, o).fs, fid) ==> holds(s, fid) || carries(op, fid),
{
    let m = fuse9p::resumed(s, nf, op, o);
    assert forall|fid: u32| #[trigger] holds(m.fs, fid) implies holds(s, fid) || carries(
        op,
        fid,
    ) by {
        if exists|i: u64| m.fs.inodes.contains_key(i) && #[trigger] m.fs.inodes[i].fid == fid {
            let i = choose|i: u64|
                m.fs.inodes.contains_key(i) && #[trigger] m.fs.inodes[i].fid == fid;
            if s.inodes.contains_key(i) && s.inodes[i].fid == fid {
                assert(holds(s, fid));
            } else {
                assert(carries(op, fid));
            }
        } else {
            let h = choose|h: u64|
                m.fs.handles.contains_key(h) && #[trigger] m.fs.handles[h].fid == fid;
            if s.handles.contains_key(h) && s.handles[h].fid == fid {
                assert(holds(s, fid));
            } else {
                assert(carries(op, fid));
            }
        }
    }
}

proof fn lemma_stays_exclusive(s: fuse9p::FsView, nf: u32, op: step::OpView, o: calls::Outcome)
    requires
        sound(s),
        s.next_fh < u64::MAX,
        apart(s, nf, op),
    ensures
        exclusive(fuse9p::resumed(s, nf, op, o).fs),
{
    let m = fuse9p::resumed(s, nf, op, o);
    lemma_holds_entries(s);
    match op {
        OpOf::LookupAttr { newfid } => {
            assert(carries(op, newfid));
        },
        OpOf::MakeAttr { basefid } => {
            assert(carries(op, basefid));
        },
        OpOf::CreateAttr { openfid, basefid } => {
            assert(carries(op, basefid));
            assert(carries(op, openfid));
        },
        OpOf::Open { newfid, .. } => {
            assert(carries(op, newfid));
        },
        OpOf::RenameWalk { freshfid } => {
            assert(carries(op, freshfid));
        },
        _ => {},
    }
}

proof fn lemma_holds_entries(s: fuse9p::FsView)
    ensures
        forall|i: u64|
            #![trigger s.inodes[i]]
            s.inodes.contains_key(i) ==> holds(s, s.inodes[i].fid),
        forall|h: u64|
            #![trigger s.handles[h]]
            s.handles.contains_key(h) ==> holds(s, s.handles[h].fid),
{
    assert forall|i: u64| #![trigger s.inodes[i]] s.inodes.contains_key(i) implies holds(
        s,
        s.inodes[i].fid,
    ) by {
        assert(s.inodes[i].fid == s.inodes[i].fid);
    }
    assert forall|h: u64| #![trigger s.handles[h]] s.handles.contains_key(h) implies holds(
        s,
        s.handles[h].fid,
    ) by {
        assert(s.handles[h].fid == s.handles[h].fid);
    }
}

proof fn lemma_in_hand_apart(
    s: fuse9p::FsView,
    nf: u32,
    op: step::OpView,
    o: calls::Outcome,
    fid: u32,
)
    requires
        sound(s),
        s.next_fh < u64::MAX,
        apart(s, nf, op),
        nf + fids_taken(op, o) <= u32::MAX,
        in_hand(fuse9p::resumed(s, nf, op, o).step, fid),
    ensures
        fid < nf + fids_taken(op, o),
        !holds(fuse9p::resumed(s, nf, op, o).fs, fid),
{
    let m = fuse9p::resumed(s, nf, op, o);
    lemma_holds_entries(s);
    lemma_held_by(s, op, o, nf);
    match m.step {
        StepOf::Prefetch { wanted, .. } => {
            let i = choose|i: int| 0 <= i < wanted.len() && #[trigger] wanted[i].fid == fid;
            lemma_nth_fid(nf, i as nat);
        },
        StepOf::Finish { clunks, .. } => {
            if carries(op, fid) {
                if holds(m.fs, fid) {
                    lemma_not_dropped_and_held(s, nf, op, o, fid);
                }
            } else {
                // The one fid that is dropped though the request did not carry it: a stale one.
                assert(op is RenameWalk);
                let ino = s.intern(step::walked_to(o)->Ok_0);
                assert(fid == s.inodes[ino].fid);
                assert(holds(s, fid));
                if holds(m.fs, fid) {
                    if exists|i: u64|
                        m.fs.inodes.contains_key(i) && #[trigger] m.fs.inodes[i].fid == fid {
                        let i = choose|i: u64|
                            m.fs.inodes.contains_key(i) && #[trigger] m.fs.inodes[i].fid == fid;
                        if i == ino {
                            assert(carries(op, fid));
                        } else {
                            assert(s.inodes[i].fid == s.inodes[ino].fid);
                        }
                    } else {
                        let h = choose|h: u64|
                            m.fs.handles.contains_key(h) && #[trigger] m.fs.handles[h].fid == fid;
                        assert(s.inodes[ino].fid == s.handles[h].fid);
                    }
                }
            }
        },
        StepOf::Call { op: next, .. } => {
            if op is Rename {
                assert(fid == nf);
            } else {
                assert(carries(op, fid));
            }
        },
        _ => {},
    }
}

proof fn lemma_not_dropped_and_held(
    s: fuse9p::FsView,
    nf: u32,
    op: step::OpView,
    o: calls::Outcome,
    fid: u32,
)
    requires
        apart(s, nf, op),
        carries(op, fid),
        fuse9p::resumed(s, nf, op, o).step matches StepOf::Finish { clunks, .. }
            && clunks.contains(fid),
    ensures
        !holds(fuse9p::resumed(s, nf, op, o).fs, fid),
{
    let m = fuse9p::resumed(s, nf, op, o);
    lemma_holds_entries(s);
    assert(!holds(s, fid));
    if holds(m.fs, fid) {
        if exists|i: u64| m.fs.inodes.contains_key(i) && #[trigger] m.fs.inodes[i].fid == fid {
            let i = choose|i: u64|
                m.fs.inodes.contains_key(i) && #[trigger] m.fs.inodes[i].fid == fid;
            assert(!(s.inodes.contains_key(i) && s.inodes[i].fid == fid));
        } else {
            let h = choose|h: u64|
                m.fs.handles.contains_key(h) && #[trigger] m.fs.handles[h].fid == fid;
            assert(!(s.handles.contains_key(h) && s.handles[h].fid == fid));
        }
    }
}

/// A request starts with fids of its own, handed out just now.
pub proof fn requests_start_apart(
    s: fuse9p::FsView,
    nf: u32,
    ino: u64,
    name: Seq<char>,
    target: Seq<char>,
    mode: u32,
    flags: i32,
    gid: u32,
)
    requires
        exclusive(s),
        forall|fid: u32| #[trigger] holds(s, fid) ==> fid < nf,
        nf + 2 <= u32::MAX,
    ensures
        starts_apart(fuse9p::lookup_started(s, nf, ino, name)),
        starts_apart(fuse9p::open_started(s, nf, ino, flags)),
        starts_apart(fuse9p::opendir_started(s, nf, ino)),
        starts_apart(fuse9p::create_started(s, nf, ino, name, mode, flags, gid)),
        starts_apart(fuse9p::mkdir_started(s, nf, ino, name, mode, gid)),
        starts_apart(fuse9p::symlink_started(s, nf, ino, name, target, gid)),
{
    lemma_holds_entries(s);
}

/// That a request which waits for a call is apart from the tables.
pub open spec fn starts_apart(m: fuse9p::Moved) -> bool {
    m.step matches StepOf::Call { op, .. } ==> apart(m.fs, m.next_fid, op)
}

/// Forgetting and closing drop exactly the fid that leaves the tables.
pub proof fn leaving_fids_are_dropped(s: fuse9p::FsView, ino: u64, n: u64, fh: u64, fid: u32)
    requires
        exclusive(s),
    ensures
        holds(s, fid) && !holds(fuse9p::forgotten(s, ino, n).0, fid) <==> fuse9p::forgotten(
            s,
            ino,
            n,
        ).1.contains(fid),
        holds(s, fid) && !holds(fuse9p::release_started(s, fh).0, fid) <==> in_hand(
            fuse9p::release_started(s, fh).1,
            fid,
        ),
        holds(s, fid) && !holds(fuse9p::releasedir_started(s, fh).0, fid) <==> in_hand(
            fuse9p::releasedir_started(s, fh).1,
            fid,
        ),
        exclusive(fuse9p::forgotten(s, ino, n).0),
        exclusive(fuse9p::release_started(s, fh).0),
        exclusive(fuse9p::releasedir_started(s, fh).0),
{
    lemma_holds_entries(s);
    let a = fuse9p::forgotten(s, ino, n);
    let b = fuse9p::release_started(s, fh);
    let c = fuse9p::releasedir_started(s, fh);
    lemma_holds_entries(a.0);
    lemma_holds_entries(b.0);
    lemma_holds_entries(c.0);
    if a.1.len() > 0 {
        assert(a.1[0] == s.inodes[ino].fid);
        assert(a.1.contains(s.inodes[ino].fid));
    }
    if s.handles.contains_key(fh) {
        let only = seq![s.handles[fh].fid];
        assert(only[0] == s.handles[fh].fid);
        assert(only.contains(s.handles[fh].fid));
    }
    assert forall|f: u32| holds(s, f) && !holds(a.0, f) implies a.1.contains(f) by {
        if exists|i: u64| s.inodes.contains_key(i) && #[trigger] s.inodes[i].fid == f {
            let i = choose|i: u64| s.inodes.contains_key(i) && #[trigger] s.inodes[i].fid == f;
            assert(a.0.inodes.contains_key(i) ==> a.0.inodes[i].fid == f);
        } else {
            let h = choose|h: u64| s.handles.contains_key(h) && #[trigger] s.handles[h].fid == f;
            assert(a.0.handles[h].fid == f);
        }
    }
    assert forall|f: u32| holds(s, f) && !holds(b.0, f) implies in_hand(b.1, f) && in_hand(
        c.1,
        f,
    ) by {
        if exists|i: u64| s.inodes.contains_key(i) && #[trigger] s.inodes[i].fid == f {
            let i = choose|i: u64| s.inodes.contains_key(i) && #[trigger] s.inodes[i].fid == f;
            assert(b.0.inodes[i].fid == f);
        } else {
            let h = choose|h: u64| s.handles.contains_key(h) && #[trigger] s.handles[h].fid == f;
            assert(b.0.handles.contains_key(h) ==> b.0.handles[h].fid == f);
        }
    }
    assert(b.0 == c.0);
}

/// The entries that are being offered are apart from the tables: each has a fid of its own, which no
/// one else holds.
pub open spec fn offers_apart(s: fuse9p::FsView, p: readdirplus::PlusView) -> bool {
    &&& exclusive(s)
    &&& forall|a: int, b: int|
        #![trigger p.list[a].fid, p.list[b].fid]
        0 <= a < b < p.list.len() ==> p.list[a].fid != p.list[b].fid
    &&& forall|a: int|
        #![trigger p.list[a].fid]
        p.next <= a < p.list.len() ==> !holds(s, p.list[a].fid) && !p.clunks.contains(
            p.list[a].fid,
        )
    &&& forall|fid: u32| #[trigger] p.clunks.contains(fid) ==> !holds(s, fid)
}

proof fn lemma_fids_from(list: Seq<readdirplus::FetchedView>, i: int, fid: u32)
    requires
        0 <= i,
    ensures
        readdirplus::fids_from(list, i).contains(fid) <==> exists|a: int|
            i <= a < list.len() && list[a].attr is Some && #[trigger] list[a].fid == fid,
    decreases list.len() - i,
{
    if i < list.len() {
        lemma_fids_from(list, i + 1, fid);
        let rest = readdirplus::fids_from(list, i + 1);
        if list[i].attr is Some {
            let all = seq![list[i].fid] + rest;
            if all.contains(fid) {
                let k = choose|k: int| 0 <= k < all.len() && all[k] == fid;
                if k > 0 {
                    assert(rest[k - 1] == fid);
                    assert(rest.contains(fid));
                } else {
                    assert(list[i].fid == fid);
                }
            }
            if list[i].fid == fid {
                assert(all[0] == fid);
            }
            if rest.contains(fid) {
                let k = choose|k: int| 0 <= k < rest.len() && rest[k] == fid;
                assert(all[k + 1] == fid);
            }
        }
    }
}

proof fn lemma_offer_from(
    s: fuse9p::FsView,
    list: Seq<readdirplus::FetchedView>,
    i: int,
    clunks: Seq<u32>,
)
    requires
        0 <= i,
        list.len() <= usize::MAX,
    ensures
        match readdirplus::offer_from(s, list, i, clunks) {
            PlusStepOf::Offer { plus, .. } => {
                &&& plus.list == list && plus.clunks == clunks
                &&& i <= plus.next < list.len()
                &&& list[plus.next as int].attr is Some
                &&& readdirplus::fids_from(list, i) == readdirplus::fids_from(
                    list,
                    plus.next as int,
                )
            },
            PlusStepOf::Finish { clunks: c } => c == clunks && readdirplus::fids_from(
                list,
                i,
            ).len() == 0,
        },
    decreases list.len() - i,
{
    if i < list.len() && list[i].attr is None {
        lemma_offer_from(s, list, i + 1, clunks);
    }
}

/// The fids that are in hand while entries are offered: those of the entries not taken yet, and
/// those dropped at the end.
pub open spec fn offer_carries(p: readdirplus::PlusView, fid: u32) -> bool {
    p.clunks.contains(fid) || readdirplus::fids_from(p.list, p.next as int).contains(fid)
}

/// The same of what is done next.
pub open spec fn offer_in_hand(st: readdirplus::PlusStepView, fid: u32) -> bool {
    match st {
        PlusStepOf::Offer { plus, .. } => offer_carries(plus, fid),
        PlusStepOf::Finish { clunks } => clunks.contains(fid),
    }
}

/// Whether the kernel takes an entry or not, no fid is lost: what the tables held and what was
/// fetched is still held, still to be offered, or dropped.
pub proof fn no_offered_fid_is_lost(
    s: fuse9p::FsView,
    p: readdirplus::PlusView,
    fits: bool,
    fid: u32,
)
    requires
        p.next < p.list.len() <= usize::MAX,
        p.list[p.next as int].attr is Some,
        holds(s, fid) || offer_carries(p, fid),
    ensures
        holds(readdirplus::offered(s, p, fits).0, fid) || offer_in_hand(
            readdirplus::offered(s, p, fits).1,
            fid,
        ),
{
    let (after, st) = readdirplus::offered(s, p, fits);
    let at = p.next as int;
    let f = p.list[at];
    let ino = s.intern(f.attr->0.qid.path);
    if fits {
        let spare = s.spare(ino, f.fid);
        let rest = readdirplus::fids_from(p.list, at + 1);
        lemma_offer_from(after, p.list, at + 1, p.clunks + spare);
        lemma_holds_after_lookup(s, ino, f.fid, fid);
        lemma_contains_concat(p.clunks, spare, fid);
        lemma_contains_concat(seq![f.fid], rest, fid);
        if s.inodes.contains_key(ino) {
            assert(spare[0] == f.fid);
        }
    } else {
        lemma_contains_concat(p.clunks, readdirplus::fids_from(p.list, at), fid);
    }
}

/// Whether the kernel takes an entry or not, no fid is both held and dropped: the entries still to be
/// offered stay apart from the tables, and what is dropped at the end is not held.
pub proof fn offered_fids_stay_apart(s: fuse9p::FsView, p: readdirplus::PlusView, fits: bool)
    requires
        offers_apart(s, p),
        p.next < p.list.len() <= usize::MAX,
        p.list[p.next as int].attr is Some,
    ensures
        match readdirplus::offered(s, p, fits).1 {
            PlusStepOf::Offer { plus, .. } => offers_apart(
                readdirplus::offered(s, p, fits).0,
                plus,
            ),
            PlusStepOf::Finish { clunks } => forall|fid: u32| #[trigger]
                clunks.contains(fid) ==> !holds(readdirplus::offered(s, p, fits).0, fid),
        },
{
    let (after, st) = readdirplus::offered(s, p, fits);
    let at = p.next as int;
    let f = p.list[at];
    let ino = s.intern(f.attr->0.qid.path);
    lemma_holds_entries(s);
    assert(!holds(s, f.fid));
    if fits {
        let clunks = p.clunks + s.spare(ino, f.fid);
        lemma_offer_from(after, p.list, at + 1, clunks);
        assert forall|fid: u32| #[trigger] holds(after, fid) <==> (holds(s, fid) || (fid == f.fid
            && !s.inodes.contains_key(ino))) by {
            lemma_holds_after_lookup(s, ino, f.fid, fid);
        }
        assert forall|fid: u32| #[trigger] clunks.contains(fid) <==> (p.clunks.contains(fid) || (fid
            == f.fid && s.inodes.contains_key(ino))) by {
            lemma_contains_concat(p.clunks, s.spare(ino, f.fid), fid);
            if s.inodes.contains_key(ino) {
                assert(s.spare(ino, f.fid)[0] == f.fid);
            }
        }
        assert(exclusive(after));
        if let PlusStepOf::Offer { plus, .. } = st {
            assert forall|a: int|
                #![trigger plus.list[a].fid]
                plus.next <= a < plus.list.len() implies !holds(after, plus.list[a].fid)
                && !plus.clunks.contains(plus.list[a].fid) by {
                assert(p.list[at].fid != p.list[a].fid);
            }
        }
    } else {
        let clunks = p.clunks + readdirplus::fids_from(p.list, at);
        assert forall|fid: u32| #[trigger] clunks.contains(fid) implies !holds(after, fid) by {
            lemma_contains_concat(p.clunks, readdirplus::fids_from(p.list, at), fid);
            lemma_fids_from(p.list, at, fid);
        }
    }
}

proof fn lemma_contains_concat(a: Seq<u32>, b: Seq<u32>, fid: u32)
    ensures
        (a + b).contains(fid) <==> a.contains(fid) || b.contains(fid),
{
    let c = a + b;
    if c.contains(fid) {
        let k = choose|k: int| 0 <= k < c.len() && c[k] == fid;
        if k < a.len() {
            assert(a[k] == fid);
        } else {
            assert(b[k - a.len()] == fid);
        }
    }
    if a.contains(fid) {
        let k = choose|k: int| 0 <= k < a.len() && a[k] == fid;
        assert(c[k] == fid);
    }
    if b.contains(fid) {
        let k = choose|k: int| 0 <= k < b.len() && b[k] == fid;
        assert(c[k + a.len()] == fid);
    }
}

proof fn lemma_holds_after_lookup(s: fuse9p::FsView, ino: u64, new: u32, fid: u32)
    ensures
        holds(s.looked_up(ino, new), fid) <==> (holds(s, fid) || (fid == new
            && !s.inodes.contains_key(ino))),
{
    let after = s.looked_up(ino, new);
    lemma_holds_entries(s);
    lemma_holds_entries(after);
    if exists|i: u64| s.inodes.contains_key(i) && #[trigger] s.inodes[i].fid == fid {
        let i = choose|i: u64| s.inodes.contains_key(i) && #[trigger] s.inodes[i].fid == fid;
        assert(after.inodes[i].fid == fid);
    }
    if exists|h: u64| s.handles.contains_key(h) && #[trigger] s.handles[h].fid == fid {
        let h = choose|h: u64| s.handles.contains_key(h) && #[trigger] s.handles[h].fid == fid;
        assert(after.handles[h].fid == fid);
    }
    if !s.inodes.contains_key(ino) {
        assert(after.inodes[ino].fid == new);
    }
    if exists|i: u64| after.inodes.contains_key(i) && #[trigger] after.inodes[i].fid == fid {
        let i = choose|i: u64|
            after.inodes.contains_key(i) && #[trigger] after.inodes[i].fid == fid;
        if s.inodes.contains_key(i) {
            assert(s.inodes[i].fid == fid);
        }
    }
    if exists|h: u64| after.handles.contains_key(h) && #[trigger] after.handles[h].fid == fid {
        let h = choose|h: u64|
            after.handles.contains_key(h) && #[trigger] after.handles[h].fid == fid;
        assert(s.handles[h].fid == fid);
    }
}

/// The fids handed out in turn are all different, until as many were handed out as there are.
pub proof fn fresh_fids_differ(nf: u32, i: nat, j: nat)
    requires
        i < j <= u32::MAX,
    ensures
        fuse9p::nth_fid(nf, i) != fuse9p::nth_fid(nf, j),
{
    lemma_nth_fid_wraps(nf, i);
    lemma_nth_fid_wraps(nf, j);
}

proof fn lemma_nth_fid_wraps(nf: u32, k: nat)
    requires
        k <= u32::MAX,
    ensures
        fuse9p::nth_fid(nf, k) == if nf + k <= u32::MAX {
            nf + k
        } else {
            nf + k - u32::MAX - 1
        },
    decreases k,
{
    if k > 0 {
        lemma_nth_fid_wraps(nf, (k - 1) as nat);
    }
}

/// The entries of a directory are offered with fids of their own.
pub proof fn fetching_starts_apart(
    s: fuse9p::FsView,
    nf: u32,
    entries: Seq<ninep::DirEntryView>,
    list: Seq<readdirplus::FetchedView>,
)
    requires
        exclusive(s),
        forall|fid: u32| #[trigger] holds(s, fid) ==> fid < nf,
        nf + entries.len() <= u32::MAX,
        list.len() == entries.len() <= usize::MAX,
        forall|i: int|
            0 <= i < list.len() ==> #[trigger] list[i].fid == fuse9p::wanted_for(nf, entries)[i].fid,
    ensures
        readdirplus::offer_from(s, list, 0, Seq::empty()) matches PlusStepOf::Offer { plus, .. }
            ==> offers_apart(s, plus),
{
    lemma_offer_from(s, list, 0, Seq::empty());
    assert forall|i: int| 0 <= i < list.len() implies #[trigger] list[i].fid == nf + i by {
        lemma_nth_fid(nf, i as nat);
    }
}

/// A write's messages are no longer than the message size, however the server cuts the write up.
pub proof fn write_messages_fit(job: writeback::JobView, msize: u32, tag: u16)
    requires
        msize > IO_HEADROOM,
        job.chunk == fuse9p::io_room(msize),
    ensures
        writeback::job_call(job) matches Some(call) ==> frame::frame_bytes(
            calls::call_type(call),
            tag,
            calls::call_body(call),
        ).len() <= msize,
{
    lemma_write_frame_len(job, tag);
}

proof fn lemma_write_frame_len(job: writeback::JobView, tag: u16)
    ensures
        writeback::job_call(job) matches Some(call) ==> frame::frame_bytes(
            calls::call_type(call),
            tag,
            calls::call_body(call),
        ).len() <= 23 + (if job.chunk == 0 {
            1
        } else {
            job.chunk as int
        }),
{
    if job.pos < job.data.len() {
        let n = writeback::next_piece(job).len();
        ninep::lemma_le_bytes_len((7 + 16 + n) % 0x1_0000_0000, 4);
        ninep::lemma_le_bytes_len(tag as nat, 2);
        ninep::lemma_le_bytes_len(job.fid as nat, 4);
        ninep::lemma_le_bytes_len(job.start.wrapping_add(job.pos as u64) as nat, 8);
        ninep::lemma_le_bytes_len(n % 0x1_0000_0000, 4);
    }
}

/// A read asks for no more than fits in an answer of the message size.
pub proof fn read_answers_fit(
    s: fuse9p::FsView,
    fh: u64,
    offset: i64,
    size: u32,
    tag: u16,
    data: Seq<u8>,
)
    requires
        s.msize > IO_HEADROOM,
        s.handles.contains_key(fh),
    ensures
        fuse9p::read_started(s, fh, offset, size) matches StepOf::Call {
            call: CallOf::Read { count, .. },
            ..
        } && count <= size && (data.len() <= count ==> frame::frame_bytes(
            ninep::RREAD,
            tag,
            ninep::le_bytes(data.len(), 4) + data,
        ).len() <= s.msize),
{
    ninep::lemma_le_bytes_len((7 + 4 + data.len()) % 0x1_0000_0000, 4);
    ninep::lemma_le_bytes_len(tag as nat, 2);
    ninep::lemma_le_bytes_len(data.len(), 4);
}

/// On a connection whose server agreed to messages of `n` bytes, no write's message is larger than
/// that, whatever size was asked for.
pub proof fn writes_fit_what_was_negotiated(
    asked: u32,
    n: u32,
    s: fuse9p::FsView,
    job: writeback::JobView,
    tag: u16,
)
    requires
        n >= client::MIN_MSIZE,
        s.msize == client::agreed(asked, n),
        job.chunk == fuse9p::io_room(s.msize),
    ensures
        writeback::job_call(job) matches Some(call) ==> frame::frame_bytes(
            calls::call_type(call),
            tag,
            calls::call_body(call),
        ).len() <= n,
{
    if s.msize > IO_HEADROOM {
        write_messages_fit(job, s.msize, tag);
    } else {
        // One byte at a time.
        lemma_write_frame_len(job, tag);
    }
}

/// On such a connection no read asks for more than fits in a message of `n` bytes either.
pub proof fn reads_fit_what_was_negotiated(
    asked: u32,
    n: u32,
    s: fuse9p::FsView,
    fh: u64,
    offset: i64,
    size: u32,
    tag: u16,
    data: Seq<u8>,
)
    requires
        n >= client::MIN_MSIZE,
        s.msize == client::agreed(asked, n),
        s.handles.contains_key(fh),
    ensures
        fuse9p::read_started(s, fh, offset, size) matches StepOf::Call {
            call: CallOf::Read { count, .. },
            ..
        } && (data.len() <= count ==> frame::frame_bytes(
            ninep::RREAD,
            tag,
            ninep::le_bytes(data.len(), 4) + data,
        ).len() <= n),
{
    ninep::lemma_le_bytes_len((7 + 4 + data.len()) % 0x1_0000_0000, 4);
    ninep::lemma_le_bytes_len(tag as nat, 2);
    ninep::lemma_le_bytes_len(data.len(), 4);
}

/// The writes of a mount are cut to its message size, which is the one above.
pub proof fn writes_are_cut_to_the_message_size(
    s: fuse9p::FsView,
    fh: u64,
    offset: i64,
    data: Seq<u8>,
    o: calls::Outcome,
)
    requires
        s.handles.contains_key(fh),
    ensures
        match fuse9p::write_started(s, fh, offset, data) {
            StepOf::Defer { job, .. } => job.chunk == fuse9p::io_room(s.msize) && (
            writeback::job_advanced(job, o) matches Ok(next) ==> next.chunk == job.chunk),
            StepOf::Call { op: OpOf::Write { job, .. }, .. } => job.chunk == fuse9p::io_room(
                s.msize,
            ) && (writeback::job_advanced(job, o) matches Ok(next) ==> next.chunk == job.chunk),
            _ => data.len() == 0,
        },
{
}

} // verus!
