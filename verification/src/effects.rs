//! What the kernel's requests do, told in paths.
//!
//! A fid stands for a file by the path that it was walked along, so what a call asks of the server can
//! be told without fids: which file is to be read, changed, moved. The laws here tell for every kernel
//! request what it asks of the server about which files, and what the kernel is answered.

use crate::attrs;
use crate::attrs::{Changes, FileType};
use crate::calls;
use crate::calls::{AnswerOf, CallOf};
use crate::fuse9p;
use crate::ninep;
use crate::ninep::Attr;
use crate::readdirplus;
use crate::readdirplus::{FetchOf, PlusStepOf};
use crate::step;
use crate::step::{OpOf, ReplyOf, StepOf};
use crate::writeback;
use vstd::prelude::*;

verus! {

/// The names from the export's root down to a file.
pub type Path = Seq<Seq<char>>;

/// What a call asks of the server, told in paths.
pub enum Ask {
    /// Let `fid` stand for the file at `path`.
    Bind { fid: u32, path: Path },
    Stat { path: Path },
    Change {
        path: Path,
        valid: u32,
        mode: u32,
        uid: u32,
        gid: u32,
        size: u64,
        atime: (u64, u64),
        mtime: (u64, u64),
    },
    /// Open the file, which `fid` stands for.
    Open { fid: u32, path: Path, flags: u32 },
    /// Create the file and let `fid` stand for it, opened.
    Create { fid: u32, path: Path, flags: u32, mode: u32, gid: u32 },
    MakeDir { path: Path, mode: u32, gid: u32 },
    MakeLink { path: Path, target: Seq<char>, gid: u32 },
    List { path: Path, offset: u64, count: u32 },
    Read { path: Path, offset: u64, count: u32 },
    Write { path: Path, offset: u64, data: Seq<u8> },
    Remove { path: Path, flags: u32 },
    Sync { path: Path },
    Move { from: Path, to: Path },
    FollowLink { path: Path },
    Statistics { path: Path },
    Drop { fid: u32 },
}

/// What a call asks of a server on which the fids stand for the files at the paths in `leads`.
pub open spec fn asked(leads: Map<u32, Path>, call: calls::CallView) -> Ask {
    match call {
        CallOf::Walk { fid, newfid, names } => Ask::Bind { fid: newfid, path: leads[fid] + names },
        CallOf::Getattr { fid } => Ask::Stat { path: leads[fid] },
        CallOf::Setattr { fid, valid, mode, uid, gid, size, atime, mtime } => Ask::Change {
            path: leads[fid],
            valid,
            mode,
            uid,
            gid,
            size,
            atime,
            mtime,
        },
        CallOf::Lopen { fid, flags } => Ask::Open { fid, path: leads[fid], flags },
        CallOf::Lcreate { dfid, name, flags, mode, gid } => Ask::Create {
            fid: dfid,
            path: leads[dfid].push(name),
            flags,
            mode,
            gid,
        },
        CallOf::Mkdir { dfid, name, mode, gid } => Ask::MakeDir {
            path: leads[dfid].push(name),
            mode,
            gid,
        },
        CallOf::Readdir { fid, offset, count } => Ask::List { path: leads[fid], offset, count },
        CallOf::Read { fid, offset, count } => Ask::Read { path: leads[fid], offset, count },
        CallOf::Write { fid, offset, data } => Ask::Write { path: leads[fid], offset, data },
        CallOf::Clunk { fid } => Ask::Drop { fid },
        CallOf::Unlinkat { dfid, name, flags } => Ask::Remove {
            path: leads[dfid].push(name),
            flags,
        },
        CallOf::Fsync { fid } => Ask::Sync { path: leads[fid] },
        CallOf::Renameat { olddfid, oldname, newdfid, newname } => Ask::Move {
            from: leads[olddfid].push(oldname),
            to: leads[newdfid].push(newname),
        },
        CallOf::Symlink { dfid, name, target, gid } => Ask::MakeLink {
            path: leads[dfid].push(name),
            target,
            gid,
        },
        CallOf::Readlink { fid } => Ask::FollowLink { path: leads[fid] },
        CallOf::Statfs { fid } => Ask::Statistics { path: leads[fid] },
    }
}

/// Where the files are that the kernel knows: the inodes it holds and the handles it has open, each
/// at the path that its fid stands for.
pub open spec fn located(
    s: fuse9p::FsView,
    leads: Map<u32, Path>,
    at: Map<u64, Path>,
    opened: Map<u64, Path>,
) -> bool {
    &&& forall|i: u64| #[trigger] s.inodes.contains_key(i) ==> leads[s.inodes[i].fid] == at[i]
    &&& forall|h: u64| #[trigger]
        s.handles.contains_key(h) ==> leads[s.handles[h].fid] == opened[h]
}

/// That a step makes a call which asks for `ask`, and waits for its outcome.
pub open spec fn steps_to(st: step::StepView, leads: Map<u32, Path>, ask: Ask) -> bool {
    st matches StepOf::Call { call, .. } && asked(leads, call) == ask
}

/// That a step answers the kernel with `reply`, after the fids in `dropped` were dropped.
pub open spec fn answers(st: step::StepView, dropped: Seq<u32>, reply: step::ReplyView) -> bool {
    st matches StepOf::Finish { clunks, reply: r } && clunks == dropped && r == reply
}

/// What waits for the outcome of the call that a step makes.
pub open spec fn waiting(st: step::StepView) -> step::OpView {
    match st {
        StepOf::Call { op, .. } => op,
        _ => OpOf::Plain,
    }
}

/// The inode number under which the kernel knows the file with the given qid path.
pub open spec fn number(s: fuse9p::FsView, qid_path: u64) -> u64 {
    if qid_path == s.root_qid_path {
        1
    } else {
        qid_path
    }
}

/// That all that distinguishes two states is the inode `ino`.
pub open spec fn same_but_inode(s: fuse9p::FsView, t: fuse9p::FsView, ino: u64) -> bool {
    &&& t.inodes.contains_key(ino)
    &&& forall|i: u64| i != ino ==> (#[trigger] t.inodes.contains_key(i) == s.inodes.contains_key(i))
    &&& forall|i: u64| i != ino && s.inodes.contains_key(i) ==> #[trigger] t.inodes[i] == s.inodes[i]
    &&& t.handles == s.handles
    &&& t.next_fh == s.next_fh
    &&& t.root_qid_path == s.root_qid_path
    &&& t.tuning == s.tuning
    &&& t.msize == s.msize
    &&& t.root_fid == s.root_fid
}

/// That the kernel has one more reference to the inode `ino`, to which `fid` was walked: a new inode
/// keeps the fid, a known one drops it.
pub open spec fn referred(
    s: fuse9p::FsView,
    t: fuse9p::FsView,
    ino: u64,
    fid: u32,
    dropped: Seq<u32>,
) -> bool {
    &&& same_but_inode(s, t, ino)
    &&& if s.inodes.contains_key(ino) {
        &&& t.inodes[ino].fid == s.inodes[ino].fid
        &&& t.inodes[ino].lookups == if s.inodes[ino].lookups < u64::MAX {
            s.inodes[ino].lookups + 1
        } else {
            u64::MAX as int
        }
        &&& dropped == seq![fid]
    } else {
        &&& t.inodes[ino].fid == fid
        &&& t.inodes[ino].lookups == 1
        &&& dropped.len() == 0
    }
}

/// That the next fid to hand out is `n` behind `nf`; fids wrap round.
pub open spec fn fids_on(nf: u32, after: u32, n: int) -> bool {
    after == (nf + n) % 0x1_0000_0000
}

/// A lookup walks a fresh fid from the directory to the name, whatever directory it is, then asks for
/// the attributes of what it found there.
pub proof fn lookup_finds_the_name_in_its_directory(
    s: fuse9p::FsView,
    leads: Map<u32, Path>,
    at: Map<u64, Path>,
    opened: Map<u64, Path>,
    nf: u32,
    parent: u64,
    name: Seq<char>,
    walked: calls::AnswerView,
)
    requires
        located(s, leads, at, opened),
        s.inodes.contains_key(parent),
    ensures
        ({
            let path = at[parent].push(name);
            let m = fuse9p::lookup_started(s, nf, parent, name);
            let n = fuse9p::resumed(s, m.next_fid, waiting(m.step), Ok(walked));
            &&& m.fs == s && fids_on(nf, m.next_fid, 1)
            &&& m.step matches StepOf::Call { call: CallOf::Walk { fid, newfid, names }, .. } && fid
                == s.inodes[parent].fid && newfid == nf && names == seq![name]
            &&& steps_to(m.step, leads, Ask::Bind { fid: nf, path })
            &&& n.fs == s && n.next_fid == m.next_fid
            &&& steps_to(n.step, leads.insert(nf, path), Ask::Stat { path })
        }),
{
    assert(at[parent] + seq![name] =~= at[parent].push(name));
}

/// What a lookup found is told the kernel: the file's own attributes under its own inode number, to be
/// trusted for the time that the knob says. The kernel then has one more reference to that inode.
pub proof fn lookup_tells_what_it_found(
    s: fuse9p::FsView,
    nf: u32,
    parent: u64,
    name: Seq<char>,
    walked: calls::AnswerView,
    a: Attr,
)
    requires
        s.inodes.contains_key(parent),
    ensures
        ({
            let m = fuse9p::lookup_started(s, nf, parent, name);
            let n = fuse9p::resumed(s, m.next_fid, waiting(m.step), Ok(walked));
            let e = fuse9p::resumed(s, n.next_fid, waiting(n.step), Ok(AnswerOf::Attr(a)));
            let ino = number(s, a.qid.path);
            &&& e.next_fid == n.next_fid
            &&& e.step matches StepOf::Finish { clunks, reply } && referred(
                s,
                e.fs,
                ino,
                nf,
                clunks,
            ) && reply == (ReplyOf::<Seq<u8>, Seq<step::DirItemView>>::Entry {
                ttl: s.tuning.entry_ttl,
                attr: attrs::file_attr(ino, a),
            })
        }),
{
}

/// A lookup that fails drops the fid that it walked and changes nothing.
pub proof fn failed_lookups_leave_nothing(
    s: fuse9p::FsView,
    nf: u32,
    parent: u64,
    name: Seq<char>,
    walked: calls::AnswerView,
    e: i32,
)
    requires
        s.inodes.contains_key(parent),
    ensures
        ({
            let m = fuse9p::lookup_started(s, nf, parent, name);
            let n = fuse9p::resumed(s, m.next_fid, waiting(m.step), Ok(walked));
            let reply = if e == 2 && s.tuning.negative_ttl is Some {
                ReplyOf::<Seq<u8>, Seq<step::DirItemView>>::Entry {
                    ttl: s.tuning.negative_ttl->0,
                    attr: attrs::no_attr(),
                }
            } else {
                ReplyOf::Error(e)
            };
            let early = fuse9p::resumed(s, m.next_fid, waiting(m.step), Err(e));
            let late = fuse9p::resumed(s, n.next_fid, waiting(n.step), Err(e));
            &&& early.fs == s && answers(early.step, seq![nf], reply)
            &&& late.fs == s && answers(late.step, seq![nf], reply)
        }),
{
}

/// A stat asks for the attributes of the file that it is of, and tells them under the same number.
pub proof fn getattr_is_of_its_file(
    s: fuse9p::FsView,
    leads: Map<u32, Path>,
    at: Map<u64, Path>,
    opened: Map<u64, Path>,
    nf: u32,
    ino: u64,
    a: Attr,
    e: i32,
)
    requires
        located(s, leads, at, opened),
        s.inodes.contains_key(ino),
    ensures
        ({
            let st = fuse9p::getattr_started(s, ino);
            let n = fuse9p::resumed(s, nf, waiting(st), Ok(AnswerOf::Attr(a)));
            &&& steps_to(st, leads, Ask::Stat { path: at[ino] })
            &&& gives_up(s, nf, waiting(st), e, Seq::empty())
            &&& n.fs == s && n.next_fid == nf
            &&& answers(
                n.step,
                Seq::empty(),
                ReplyOf::Attr { ttl: s.tuning.attr_ttl, attr: attrs::file_attr(ino, a) },
            )
        }),
{
}

/// A change of attributes is made to the file that it is of, whatever file it is: what was asked for
/// is changed to what was asked for. Then that file's attributes are read back and told.
pub proof fn setattr_is_of_its_file(
    s: fuse9p::FsView,
    leads: Map<u32, Path>,
    at: Map<u64, Path>,
    opened: Map<u64, Path>,
    nf: u32,
    ino: u64,
    c: Changes,
    done: calls::AnswerView,
    a: Attr,
    refusal: i32,
)
    requires
        located(s, leads, at, opened),
        s.inodes.contains_key(ino),
    ensures
        ({
            let st = fuse9p::setattr_started(s, ino, c);
            let n = fuse9p::resumed(s, nf, waiting(st), Ok(done));
            let e = fuse9p::resumed(s, nf, waiting(n.step), Ok(AnswerOf::Attr(a)));
            &&& st matches StepOf::Call { call, .. } && asked(leads, call) matches Ask::Change {
                path,
                valid,
                mode,
                uid,
                gid,
                size,
                atime,
                mtime,
            } && {
                &&& path == at[ino]
                &&& valid & !0x1bfu32 == 0
                &&& (valid & 0x1 != 0) == (c.mode is Some)
                &&& c.mode matches Some(m) ==> mode == m & 0o7777
                &&& (valid & 0x2 != 0) == (c.uid is Some)
                &&& c.uid matches Some(u) ==> uid == u
                &&& (valid & 0x4 != 0) == (c.gid is Some)
                &&& c.gid matches Some(g) ==> gid == g
                &&& (valid & 0x8 != 0) == (c.size is Some)
                &&& c.size matches Some(z) ==> size == z
                &&& (valid & 0x10 != 0) == (c.atime is Some)
                &&& (valid & 0x80 != 0) == (c.atime matches Some(attrs::TimeOrNow::SpecificTime(_)))
                &&& c.atime matches Some(t) ==> atime == seconds_and_nanos(t)
                &&& (valid & 0x20 != 0) == (c.mtime is Some)
                &&& (valid & 0x100 != 0) == (c.mtime matches Some(
                    attrs::TimeOrNow::SpecificTime(_),
                ))
                &&& c.mtime matches Some(t) ==> mtime == seconds_and_nanos(t)
            }
            &&& st matches StepOf::Call { call: CallOf::Setattr { fid, .. }, .. } && fid
                == s.inodes[ino].fid
            &&& n.step matches StepOf::Call { call: CallOf::Getattr { fid }, .. } && fid
                == s.inodes[ino].fid
            &&& n.fs == s && steps_to(n.step, leads, Ask::Stat { path: at[ino] })
            &&& gives_up(s, nf, waiting(st), refusal, Seq::empty())
            &&& gives_up(s, nf, waiting(n.step), refusal, Seq::empty())
            &&& e.fs == s && answers(
                e.step,
                Seq::empty(),
                ReplyOf::Attr { ttl: s.tuning.attr_ttl, attr: attrs::file_attr(ino, a) },
            )
        }),
{
    attrs::setattr_touches_what_it_changes(c);
}

/// A time to set in seconds and nanoseconds; times before the epoch count as the epoch.
pub open spec fn seconds_and_nanos(t: attrs::TimeOrNow) -> (u64, u64) {
    let at = match t {
        attrs::TimeOrNow::SpecificTime(at) => at,
        attrs::TimeOrNow::Now(at) => at,
    };
    match at {
        Some(span) => (span.secs, span.nanos as u64),
        None => (0, 0),
    }
}

/// The access that open flags ask for.
pub open spec fn access(flags: u32) -> u32 {
    flags & 0x3
}

/// What the server is asked to open a file with: as the kernel has it, but without close-on-exec
/// (0x80000), and with reading where the kernel's cache would read back what it only means to write.
pub proof fn open_flags_are_passed_on(flags: i32, writeback: bool)
    ensures
        ({
            let f = flags as u32;
            let o = fuse9p::open_flags(flags, writeback);
            &&& o & 0x80000 == 0
            &&& o & !0x80003u32 == f & !0x80003u32
            &&& access(o) == if writeback && access(f) == 1 {
                2
            } else {
                access(f)
            }
            &&& fuse9p::is_writable(o) == (access(f) != 0)
        }),
{
    let f = flags as u32;
    assert(((f & !0x80000) & 0x80000) == 0 && ((f & !0x80000) & !0x80003) == (f & !0x80003) && ((f
        & !0x80000) & 3) == (f & 3)) by (bit_vector);
    let g = f & !0x80000;
    assert(g & 3 == 1 ==> {
        let o = (g & !3) | 2;
        &&& o & 0x80000 == g & 0x80000
        &&& o & !0x80003 == g & !0x80003
        &&& o & 3 == 2
    }) by (bit_vector);
}

/// What a new handle is like: it has the fid that was opened, and defers writes exactly where the file
/// was opened to be written and the knob is on, with at least one in flight.
pub open spec fn handle_made(
    s: fuse9p::FsView,
    t: fuse9p::FsView,
    fid: u32,
    written: bool,
) -> bool {
    &&& t.handles.contains_key(s.next_fh)
    &&& t.handles[s.next_fh].fid == fid
    &&& t.handles[s.next_fh].depth == if written && s.tuning.writeback {
        Some(
            if s.tuning.wb_depth == 0 {
                1usize
            } else {
                s.tuning.wb_depth
            },
        )
    } else {
        None
    }
    &&& forall|h: u64| h != s.next_fh ==> (#[trigger] t.handles.contains_key(h)
        == s.handles.contains_key(h))
    &&& forall|h: u64|
        h != s.next_fh && s.handles.contains_key(h) ==> #[trigger] t.handles[h] == s.handles[h]
    &&& t.next_fh == if s.next_fh < u64::MAX {
        s.next_fh + 1
    } else {
        0
    }
    &&& t.root_qid_path == s.root_qid_path
    &&& t.tuning == s.tuning
    &&& t.msize == s.msize
    &&& t.root_fid == s.root_fid
}

/// An open makes a clone of the file's fid and opens that, so that the file's own stays as it is; the
/// kernel gets a handle for it.
pub proof fn open_opens_its_file(
    s: fuse9p::FsView,
    leads: Map<u32, Path>,
    at: Map<u64, Path>,
    opened: Map<u64, Path>,
    nf: u32,
    ino: u64,
    flags: i32,
    cloned: calls::AnswerView,
    done: calls::AnswerView,
)
    requires
        located(s, leads, at, opened),
        s.inodes.contains_key(ino),
    ensures
        ({
            let m = fuse9p::open_started(s, nf, ino, flags);
            let n = fuse9p::resumed(s, m.next_fid, waiting(m.step), Ok(cloned));
            let e = fuse9p::resumed(s, n.next_fid, waiting(n.step), Ok(done));
            &&& m.fs == s && fids_on(nf, m.next_fid, 1)
            &&& steps_to(m.step, leads, Ask::Bind { fid: nf, path: at[ino] })
            &&& n.fs == s && n.next_fid == m.next_fid
            &&& steps_to(
                n.step,
                leads.insert(nf, at[ino]),
                Ask::Open {
                    fid: nf,
                    path: at[ino],
                    flags: fuse9p::open_flags(flags, s.tuning.writeback),
                },
            )
            &&& e.next_fid == m.next_fid && e.fs.inodes == s.inodes
            &&& handle_made(s, e.fs, nf, access(flags as u32) != 0)
            &&& answers(e.step, Seq::empty(), ReplyOf::Opened { fh: s.next_fh })
        }),
{
    open_flags_are_passed_on(flags, s.tuning.writeback);
    assert(at[ino] + Seq::<Seq<char>>::empty() =~= at[ino]);
}

/// A directory is opened to be read only, and its handle defers nothing.
pub proof fn opendir_opens_its_directory(
    s: fuse9p::FsView,
    leads: Map<u32, Path>,
    at: Map<u64, Path>,
    opened: Map<u64, Path>,
    nf: u32,
    ino: u64,
    cloned: calls::AnswerView,
    done: calls::AnswerView,
)
    requires
        located(s, leads, at, opened),
        s.inodes.contains_key(ino),
    ensures
        ({
            let m = fuse9p::opendir_started(s, nf, ino);
            let n = fuse9p::resumed(s, m.next_fid, waiting(m.step), Ok(cloned));
            let e = fuse9p::resumed(s, n.next_fid, waiting(n.step), Ok(done));
            &&& m.fs == s && fids_on(nf, m.next_fid, 1)
            &&& steps_to(m.step, leads, Ask::Bind { fid: nf, path: at[ino] })
            &&& n.fs == s && n.next_fid == m.next_fid
            &&& steps_to(
                n.step,
                leads.insert(nf, at[ino]),
                Ask::Open { fid: nf, path: at[ino], flags: 0 },
            )
            &&& e.next_fid == m.next_fid && e.fs.inodes == s.inodes
            &&& handle_made(s, e.fs, nf, false)
            &&& answers(e.step, Seq::empty(), ReplyOf::Opened { fh: s.next_fh })
        }),
{
    assert(at[ino] + Seq::<Seq<char>>::empty() =~= at[ino]);
}

/// An open that fails, at either step, drops the fid that it made and changes nothing.
pub proof fn failed_opens_leave_nothing(
    s: fuse9p::FsView,
    nf: u32,
    ino: u64,
    flags: i32,
    cloned: calls::AnswerView,
    e: i32,
)
    requires
        s.inodes.contains_key(ino),
    ensures
        ({
            let m = fuse9p::open_started(s, nf, ino, flags);
            let n = fuse9p::resumed(s, m.next_fid, waiting(m.step), Ok(cloned));
            let d = fuse9p::opendir_started(s, nf, ino);
            let f = fuse9p::resumed(s, d.next_fid, waiting(d.step), Ok(cloned));
            &&& gives_up(s, m.next_fid, waiting(m.step), e, seq![nf])
            &&& gives_up(s, n.next_fid, waiting(n.step), e, seq![nf])
            &&& gives_up(s, d.next_fid, waiting(d.step), e, seq![nf])
            &&& gives_up(s, f.next_fid, waiting(f.step), e, seq![nf])
        }),
{
}

/// That a waiting request whose call is refused with `e` drops the given fids, tells the error, and
/// changes nothing.
pub open spec fn gives_up(
    s: fuse9p::FsView,
    nf: u32,
    op: step::OpView,
    e: i32,
    dropped: Seq<u32>,
) -> bool {
    let m = fuse9p::resumed(s, nf, op, Err(e));
    &&& m.fs == s && m.next_fid == nf
    &&& answers(m.step, dropped, ReplyOf::Error(e))
}

/// A read is of the file that is open, from the offset that it is of, for as many bytes as are wanted
/// and fit in a message; what the server sends is what is told.
pub proof fn read_is_of_its_file(
    s: fuse9p::FsView,
    leads: Map<u32, Path>,
    at: Map<u64, Path>,
    opened: Map<u64, Path>,
    nf: u32,
    fh: u64,
    offset: i64,
    size: u32,
    data: Seq<u8>,
    e: i32,
)
    requires
        located(s, leads, at, opened),
        s.handles.contains_key(fh),
    ensures
        ({
            let st = fuse9p::read_started(s, fh, offset, size);
            let n = fuse9p::resumed(s, nf, waiting(st), Ok(AnswerOf::Data(data)));
            &&& st matches StepOf::Call { call, .. } && asked(leads, call) matches Ask::Read {
                path,
                offset: from,
                count,
            } && {
                &&& path == opened[fh] && from == offset as u64
                &&& count <= size
                &&& size + 24 <= s.msize ==> count == size
                &&& 24 <= s.msize < size + 24 ==> count == s.msize - 24
                &&& s.msize < 24 ==> count == 0
            }
            &&& n.fs == s && n.next_fid == nf
            &&& answers(n.step, Seq::empty(), ReplyOf::Data(data))
            &&& gives_up(s, nf, waiting(st), e, Seq::empty())
        }),
{
}

/// A write, deferred or not, goes to the file that is open, starts at the offset that it is of, and
/// has all of the data still to be sent: when the server has taken all that it is sent, it has taken
/// the data. What is told is the length of what is sent. Writes are deferred exactly on handles that
/// defer them.
pub proof fn write_carries_all_of_its_data(
    s: fuse9p::FsView,
    leads: Map<u32, Path>,
    at: Map<u64, Path>,
    opened: Map<u64, Path>,
    fh: u64,
    offset: i64,
    data: Seq<u8>,
    counts: Seq<u32>,
)
    requires
        located(s, leads, at, opened),
        s.handles.contains_key(fh),
        data.len() <= u32::MAX,
    ensures
        ({
            let deferred = s.handles[fh].depth is Some;
            let room: int = if s.msize < 24 {
                0
            } else {
                s.msize - 24
            };
            match fuse9p::write_started(s, fh, offset, data) {
                StepOf::Defer { fh: h, job, len } => {
                    &&& deferred && h == fh
                    &&& sends(leads, opened[fh], offset as u64, data, counts, room, job, len)
                },
                StepOf::Call { call, op: OpOf::Write { job, len } } => {
                    &&& !deferred && writeback::job_call(job) == Some(call)
                    &&& sends(leads, opened[fh], offset as u64, data, counts, room, job, len)
                },
                StepOf::Finish { clunks, reply } => {
                    &&& !deferred && data.len() == 0
                    &&& clunks.len() == 0
                    &&& reply == ReplyOf::<Seq<u8>, Seq<step::DirItemView>>::Written(0)
                },
                _ => false,
            }
        }),
{
    let h = s.handles[fh];
    let chunk: usize = fuse9p::io_room(s.msize) as usize;
    let job = writeback::fresh_job(h.fid, offset as u64, data, chunk);
    if offset as u64 + data.len() <= u64::MAX && writeback::honest(job, counts) {
        writeback::write_covers_data_once(h.fid, offset as u64, data, chunk, counts);
        writeback::write_goes_to_its_file(job, counts);
        let now = writeback::job_after(job, counts);
        if let Some(CallOf::Write { data: piece, .. }) = writeback::job_call(now) {
            let end = (now.pos + piece.len()) as int;
            assert(data.subrange(0, now.pos as int) + piece =~= data.take(end));
        }
    }
}

/// That a write sends `data` to the file at `path` from `start` on: its first message starts there,
/// each message goes to that file where the last one was cut off, and once the server has taken all
/// that it is sent, in however many pieces, it has taken `data`. No message carries more than `chunk`
/// bytes, but for one byte. `len` is what is told.
pub open spec fn sends(
    leads: Map<u32, Path>,
    path: Path,
    start: u64,
    data: Seq<u8>,
    counts: Seq<u32>,
    chunk: int,
    job: writeback::JobView,
    len: u32,
) -> bool {
    &&& leads[job.fid] == path
    &&& job.start == start && job.pos == 0 && job.data == data
    &&& job.chunk == chunk
    &&& len == data.len() && len == job.data.len()
    &&& start + data.len() <= u64::MAX && writeback::honest(job, counts) ==> {
        let now = writeback::job_after(job, counts);
        match writeback::job_call(now) {
            Some(call) => asked(leads, call) matches Ask::Write { path: p, offset, data: piece }
                && p == path && offset == start + writeback::taken(job, counts).len()
                && writeback::taken(job, counts) + piece == data.take(
                (writeback::taken(job, counts).len() + piece.len()) as int,
            ),
            None => writeback::taken(job, counts) == data,
        }
    }
}

/// A write that is not deferred goes on from message to message until all has been taken, and then
/// tells the whole length.
pub proof fn synchronous_writes_go_on(
    s: fuse9p::FsView,
    nf: u32,
    job: writeback::JobView,
    len: u32,
    n: u32,
    e: i32,
)
    requires
        job.pos < job.data.len() <= usize::MAX,
        0 < n <= writeback::next_piece(job).len(),
    ensures
        ({
            let op = OpOf::<Seq<char>, writeback::JobView>::Write { job, len };
            let m = fuse9p::resumed(s, nf, op, Ok(AnswerOf::Count(n)));
            &&& m.fs == s && m.next_fid == nf
            &&& if job.pos + n == job.data.len() {
                answers(m.step, Seq::empty(), ReplyOf::Written(len))
            } else {
                m.step matches StepOf::Call { call, op: OpOf::Write { job: next, len: l } }
                    && l == len && next.pos == job.pos + n && next.fid == job.fid && next.start
                    == job.start && next.data == job.data && next.chunk == job.chunk
                    && writeback::job_call(next) == Some(call)
            }
            &&& gives_up(s, nf, op, e, Seq::empty())
            &&& fuse9p::resumed(s, nf, op, Ok(AnswerOf::Count(0))).fs == s
            &&& answers(
                fuse9p::resumed(s, nf, op, Ok(AnswerOf::Count(0))).step,
                Seq::empty(),
                ReplyOf::Error(5),
            )
        }),
{
}

/// A closed handle is gone, and nothing else is. Where it defers writes they are waited for first;
/// then its fid is dropped, and an error that they met is told.
pub proof fn release_closes_its_handle(s: fuse9p::FsView, fh: u64, err: Option<i32>)
    requires
        s.handles.contains_key(fh),
    ensures
        ({
            let (t, st) = fuse9p::release_started(s, fh);
            let fid = s.handles[fh].fid;
            &&& only_handle_gone(s, t, fh)
            &&& if s.handles[fh].depth is Some {
                st matches StepOf::Drain { fh: h, op } && h == fh && answers(
                    fuse9p::drained(op, err),
                    seq![fid],
                    match err {
                        Some(e) => ReplyOf::Error(e),
                        None => ReplyOf::Empty,
                    },
                )
            } else {
                answers(st, seq![fid], ReplyOf::Empty)
            }
        }),
{
}

/// That a handle is gone, and nothing else has changed.
pub open spec fn only_handle_gone(s: fuse9p::FsView, t: fuse9p::FsView, fh: u64) -> bool {
    &&& !t.handles.contains_key(fh)
    &&& forall|h: u64| h != fh ==> (#[trigger] t.handles.contains_key(h) == s.handles.contains_key(
        h,
    ))
    &&& forall|h: u64| h != fh && s.handles.contains_key(h) ==> #[trigger] t.handles[h]
        == s.handles[h]
    &&& t.inodes == s.inodes
    &&& t.next_fh == s.next_fh
    &&& t.root_qid_path == s.root_qid_path
    &&& t.tuning == s.tuning
    &&& t.msize == s.msize
    &&& t.root_fid == s.root_fid
}

/// A closed directory handle is gone, and its fid is dropped.
pub proof fn releasedir_closes_its_handle(s: fuse9p::FsView, fh: u64)
    requires
        s.handles.contains_key(fh),
    ensures
        only_handle_gone(s, fuse9p::releasedir_started(s, fh).0, fh),
        answers(
            fuse9p::releasedir_started(s, fh).1,
            seq![s.handles[fh].fid],
            ReplyOf::Empty,
        ),
{
}

/// A flush waits for the deferred writes of its handle, and tells the error that they met.
pub proof fn flush_tells_deferred_errors(s: fuse9p::FsView, fh: u64, err: Option<i32>)
    requires
        s.handles.contains_key(fh),
    ensures
        ({
            let st = fuse9p::flush_started(s, fh);
            if s.handles[fh].depth is Some {
                st matches StepOf::Drain { fh: h, op } && h == fh && answers(
                    fuse9p::drained(op, err),
                    Seq::empty(),
                    match err {
                        Some(e) => ReplyOf::Error(e),
                        None => ReplyOf::Empty,
                    },
                )
            } else {
                answers(st, Seq::empty(), ReplyOf::Empty)
            }
        }),
{
}

/// An fsync waits for the deferred writes of its handle. Where none of them failed, the server is asked
/// to make that very file durable; else their error is told.
pub proof fn fsync_syncs_its_file(
    s: fuse9p::FsView,
    leads: Map<u32, Path>,
    at: Map<u64, Path>,
    opened: Map<u64, Path>,
    nf: u32,
    fh: u64,
    e: i32,
    done: calls::AnswerView,
)
    requires
        located(s, leads, at, opened),
        s.handles.contains_key(fh),
    ensures
        ({
            let st = fuse9p::fsync_started(s, fh);
            let asks = match st {
                StepOf::Drain { op, .. } => fuse9p::drained(op, None),
                _ => st,
            };
            let n = fuse9p::resumed(s, nf, waiting(asks), Ok(done));
            &&& (st is Drain) == (s.handles[fh].depth is Some)
            &&& st matches StepOf::Drain { fh: h, op } ==> h == fh && answers(
                fuse9p::drained(op, Some(e)),
                Seq::empty(),
                ReplyOf::Error(e),
            )
            &&& steps_to(asks, leads, Ask::Sync { path: opened[fh] })
            &&& n.fs == s && answers(n.step, Seq::empty(), ReplyOf::Empty)
            &&& gives_up(s, nf, waiting(asks), e, Seq::empty())
        }),
{
}

/// A listing is of the directory that is open, from the offset that it is of. Every entry that the
/// server sends is told, in order: under its own inode number, name and offset, and as a directory, a
/// symlink or a file by the bits of its qid's type.
pub proof fn readdir_lists_its_directory(
    s: fuse9p::FsView,
    leads: Map<u32, Path>,
    at: Map<u64, Path>,
    opened: Map<u64, Path>,
    nf: u32,
    fh: u64,
    offset: i64,
    entries: Seq<ninep::DirEntryView>,
    e: i32,
)
    requires
        located(s, leads, at, opened),
        s.handles.contains_key(fh),
    ensures
        ({
            let st = fuse9p::readdir_started(s, fh, offset);
            let n = fuse9p::resumed(s, nf, waiting(st), Ok(AnswerOf::Entries(entries)));
            &&& steps_to(
                st,
                leads,
                Ask::List { path: opened[fh], offset: offset as u64, count: 8192 },
            )
            &&& n.fs == s && n.next_fid == nf
            &&& n.step matches StepOf::Finish { clunks, reply: ReplyOf::List(items) } && {
                &&& clunks.len() == 0
                &&& items.len() == entries.len()
                &&& forall|i: int|
                    0 <= i < entries.len() ==> {
                        &&& (#[trigger] items[i]).ino == number(s, entries[i].qid.path)
                        &&& items[i].offset == entries[i].offset as i64
                        &&& items[i].name == entries[i].name
                        &&& items[i].kind == kind_by_bits(entries[i].qid.typ)
                    }
            }
            &&& gives_up(s, nf, waiting(st), e, Seq::empty())
        }),
{
}

/// What kind of file the bits of a qid's type tell.
pub open spec fn kind_by_bits(typ: u8) -> FileType {
    if typ & 0x80 != 0 {
        FileType::Directory
    } else if typ & 0x02 != 0 {
        FileType::Symlink
    } else {
        FileType::RegularFile
    }
}

/// A listing tells the same kind as the attributes do, where the server gives a file the matching qid
/// type and mode: directories, symlinks and regular files alike.
pub proof fn listing_and_stat_agree_on_the_kind(
    s: fuse9p::FsView,
    e: ninep::DirEntryView,
    ino: u64,
    a: Attr,
)
    requires
        (e.qid.typ & 0x80 != 0) == (a.mode & 0o170000 == 0o040000),
        e.qid.typ & 0x80 == 0 ==> (e.qid.typ & 0x02 != 0) == (a.mode & 0o170000 == 0o120000),
    ensures
        fuse9p::dir_item(s, e).kind == attrs::file_attr(ino, a).kind,
{
}

/// The attributes that the kernel is told are the server's. Only what does not fit is cut: nanoseconds
/// beyond a second, and numbers beyond 32 bits; no file has fewer than one link or blocks below 512
/// bytes.
pub proof fn stat_shows_the_servers_attributes(ino: u64, a: Attr)
    ensures
        ({
            let f = attrs::file_attr(ino, a);
            &&& f.ino == ino && f.size == a.size && f.blocks == a.blocks
            &&& f.uid == a.uid && f.gid == a.gid
            &&& f.perm as u32 == a.mode & 0o7777
            &&& (f.kind is Directory) == (a.mode & 0o170000 == 0o040000)
            &&& (f.kind is Symlink) == (a.mode & 0o170000 == 0o120000)
            &&& f.atime.secs == a.atime.0 && f.mtime.secs == a.mtime.0 && f.ctime.secs
                == a.ctime.0
            &&& f.atime.nanos == nanos_within(a.atime.1)
            &&& f.mtime.nanos == nanos_within(a.mtime.1)
            &&& f.ctime.nanos == nanos_within(a.ctime.1)
            &&& f.crtime.secs == 0 && f.crtime.nanos == 0
            &&& a.nlink != 0 ==> f.nlink == a.nlink % 0x1_0000_0000
            &&& a.nlink == 0 ==> f.nlink == 1
            &&& f.rdev == a.rdev % 0x1_0000_0000
            &&& 512 <= a.blksize ==> f.blksize == a.blksize % 0x1_0000_0000
            &&& a.blksize < 512 ==> f.blksize == 512
            &&& f.flags == 0
        }),
{
    let m = a.mode;
    assert(((m & 0o7777) as u16) as u32 == m & 0o7777) by (bit_vector);
    lemma_low_half(a.nlink);
    lemma_low_half(a.rdev);
    lemma_low_half(a.blksize);
    lemma_low_half(a.atime.1);
    lemma_low_half(a.mtime.1);
    lemma_low_half(a.ctime.1);
}

/// Nanoseconds as they are told: the low half of the number, and below a second.
pub open spec fn nanos_within(n: u64) -> int {
    let low: int = n as int % 0x1_0000_0000;
    if low < 1_000_000_000 {
        low
    } else {
        999_999_999
    }
}

proof fn lemma_low_half(n: u64)
    ensures
        n as u32 == n % 0x1_0000_0000,
{
    assert(n as u32 == n % 0x1_0000_0000) by (bit_vector);
}

/// The record for a name that is not there has inode 0 and shows nothing else.
pub proof fn misses_show_nothing()
    ensures
        ({
            let f = attrs::no_attr();
            &&& f.ino == 0 && f.size == 0 && f.blocks == 0 && f.nlink == 0 && f.perm == 0
            &&& f.uid == 0 && f.gid == 0 && f.rdev == 0 && f.flags == 0 && f.blksize == 512
            &&& f.kind is RegularFile
            &&& f.atime.secs == 0 && f.atime.nanos == 0
            &&& f.mtime == f.atime && f.ctime == f.atime && f.crtime == f.atime
        }),
{
}

/// A rename moves what is at the old name in the old directory to the new name in the new one, also
/// where the two directories differ. Then a fresh fid is walked to the new place, since those that
/// lead to the old one may be stale.
pub proof fn rename_moves_the_file(
    s: fuse9p::FsView,
    leads: Map<u32, Path>,
    at: Map<u64, Path>,
    opened: Map<u64, Path>,
    nf: u32,
    parent: u64,
    name: Seq<char>,
    newparent: u64,
    newname: Seq<char>,
    done: calls::AnswerView,
    e: i32,
)
    requires
        located(s, leads, at, opened),
        s.inodes.contains_key(parent),
        s.inodes.contains_key(newparent),
    ensures
        ({
            let st = fuse9p::rename_started(s, parent, name, newparent, newname);
            let n = fuse9p::resumed(s, nf, waiting(st), Ok(done));
            &&& st matches StepOf::Call { call, .. } && call == (CallOf::<
                Seq<char>,
                Seq<Seq<char>>,
                Seq<u8>,
            >::Renameat {
                olddfid: s.inodes[parent].fid,
                oldname: name,
                newdfid: s.inodes[newparent].fid,
                newname,
            })
            &&& steps_to(
                st,
                leads,
                Ask::Move { from: at[parent].push(name), to: at[newparent].push(newname) },
            )
            &&& gives_up(s, nf, waiting(st), e, Seq::empty())
            &&& n.fs == s && fids_on(nf, n.next_fid, 1)
            &&& steps_to(n.step, leads, Ask::Bind { fid: nf, path: at[newparent].push(newname) })
        }),
{
    assert(at[newparent] + seq![newname] =~= at[newparent].push(newname));
}

/// Once a file was moved, the rename has succeeded whatever else comes. The inode of the file at the
/// new name has the fresh fid from then on, and its stale one is dropped; a fresh fid that is of no use
/// is dropped itself.
pub proof fn moved_files_get_the_fresh_fid(
    s: fuse9p::FsView,
    nf: u32,
    parent: u64,
    name: Seq<char>,
    newparent: u64,
    newname: Seq<char>,
    done: calls::AnswerView,
    o: calls::Outcome,
)
    requires
        s.inodes.contains_key(parent),
        s.inodes.contains_key(newparent),
    ensures
        ({
            let st = fuse9p::rename_started(s, parent, name, newparent, newname);
            let n = fuse9p::resumed(s, nf, waiting(st), Ok(done));
            let e = fuse9p::resumed(s, n.next_fid, waiting(n.step), o);
            &&& e.next_fid == n.next_fid
            &&& match o {
                Ok(AnswerOf::Qids(q)) if q.len() > 0 && s.inodes.contains_key(
                    number(s, q.last().path),
                ) => {
                    let ino = number(s, q.last().path);
                    &&& same_but_inode(s, e.fs, ino)
                    &&& e.fs.inodes[ino].fid == nf
                    &&& e.fs.inodes[ino].lookups == s.inodes[ino].lookups
                    &&& answers(e.step, seq![s.inodes[ino].fid], ReplyOf::Empty)
                },
                _ => e.fs == s && answers(e.step, seq![nf], ReplyOf::Empty),
            }
        }),
{
}

/// A create makes the file in the directory that it is of, through a clone of the directory's fid that
/// stands for the open file from then on. A second fresh fid is walked to the new name, and the file's
/// attributes are asked for through it.
pub proof fn create_makes_the_file(
    s: fuse9p::FsView,
    leads: Map<u32, Path>,
    at: Map<u64, Path>,
    opened: Map<u64, Path>,
    nf: u32,
    parent: u64,
    name: Seq<char>,
    mode: u32,
    flags: i32,
    gid: u32,
    done: Seq<calls::AnswerView>,
)
    requires
        located(s, leads, at, opened),
        s.inodes.contains_key(parent),
        nf + 2 <= u32::MAX,
        s.inodes[parent].fid != nf,
    ensures
        ({
            let path = at[parent].push(name);
            let m = fuse9p::create_started(s, nf, parent, name, mode, flags, gid);
            let c = fuse9p::resumed(s, m.next_fid, waiting(m.step), Ok(done[0]));
            let w = fuse9p::resumed(s, m.next_fid, waiting(c.step), Ok(done[1]));
            let a = fuse9p::resumed(s, m.next_fid, waiting(w.step), Ok(done[2]));
            let cloned = leads.insert(nf, at[parent]);
            let made = leads.insert(nf, path);
            let base = (nf + 1) as u32;
            &&& m.fs == s && m.next_fid == nf + 2
            &&& steps_to(m.step, leads, Ask::Bind { fid: nf, path: at[parent] })
            &&& c.fs == s && c.next_fid == m.next_fid
            &&& c.step matches StepOf::Call { call, .. } && asked(cloned, call) matches Ask::Create {
                fid,
                path: p,
                flags: f,
                mode: perm,
                gid: g,
            } && fid == nf && p == path && g == gid && perm == mode & 0o7777 && f == (flags as u32)
                & !0x80000u32
            &&& w.fs == s && w.next_fid == m.next_fid
            &&& steps_to(w.step, made, Ask::Bind { fid: base, path })
            &&& a.fs == s && a.next_fid == m.next_fid
            &&& steps_to(a.step, made.insert(base, path), Ask::Stat { path })
        }),
{
    assert(at[parent] + Seq::<Seq<char>>::empty() =~= at[parent]);
    assert(at[parent] + seq![name] =~= at[parent].push(name));
}

/// What a create came to: the file has an inode of its own with the fid that was walked to it, and is
/// open for writing under a new handle, whatever the flags were.
pub proof fn created_files_are_open(
    s: fuse9p::FsView,
    nf: u32,
    parent: u64,
    name: Seq<char>,
    mode: u32,
    flags: i32,
    gid: u32,
    done: Seq<calls::AnswerView>,
    at: Attr,
    e: i32,
)
    requires
        s.inodes.contains_key(parent),
        nf + 2 <= u32::MAX,
    ensures
        ({
            let m = fuse9p::create_started(s, nf, parent, name, mode, flags, gid);
            let c = fuse9p::resumed(s, m.next_fid, waiting(m.step), Ok(done[0]));
            let w = fuse9p::resumed(s, m.next_fid, waiting(c.step), Ok(done[1]));
            let a = fuse9p::resumed(s, m.next_fid, waiting(w.step), Ok(done[2]));
            let n = fuse9p::resumed(s, m.next_fid, waiting(a.step), Ok(AnswerOf::Attr(at)));
            let ino = number(s, at.qid.path);
            let both = seq![nf, (nf + 1) as u32];
            &&& n.next_fid == m.next_fid
            &&& new_inode(s.inodes, n.fs.inodes, ino, (nf + 1) as u32)
            &&& handle_made(s, n.fs, nf, true)
            &&& answers(
                n.step,
                Seq::empty(),
                ReplyOf::Created {
                    ttl: s.tuning.entry_ttl,
                    attr: attrs::file_attr(ino, at),
                    fh: s.next_fh,
                },
            )
            &&& gives_up(s, m.next_fid, waiting(m.step), e, both)
            &&& gives_up(s, m.next_fid, waiting(c.step), e, both)
            &&& gives_up(s, m.next_fid, waiting(w.step), e, both)
            &&& gives_up(s, m.next_fid, waiting(a.step), e, both)
        }),
{
}

/// That an inode was made with the given fid, which the kernel refers to once, and the others stay.
pub open spec fn new_inode(
    before: Map<u64, fuse9p::Inode>,
    after: Map<u64, fuse9p::Inode>,
    ino: u64,
    fid: u32,
) -> bool {
    &&& after.contains_key(ino) && after[ino].fid == fid && after[ino].lookups == 1
    &&& forall|i: u64| i != ino ==> (#[trigger] after.contains_key(i) == before.contains_key(i))
    &&& forall|i: u64| i != ino && before.contains_key(i) ==> #[trigger] after[i] == before[i]
}

/// What is left of a mkdir or a symlink when the directory or link was made: a fresh fid is walked to
/// the new name, its attributes are asked for, and the kernel is told the new inode.
pub open spec fn made_is_looked_up(
    s: fuse9p::FsView,
    leads: Map<u32, Path>,
    path: Path,
    nf: u32,
    m: fuse9p::Moved,
    done: Seq<calls::AnswerView>,
    at: Attr,
    e: i32,
) -> bool {
    let w = fuse9p::resumed(s, m.next_fid, waiting(m.step), Ok(done[0]));
    let a = fuse9p::resumed(s, m.next_fid, waiting(w.step), Ok(done[1]));
    let n = fuse9p::resumed(s, m.next_fid, waiting(a.step), Ok(AnswerOf::Attr(at)));
    let ino = number(s, at.qid.path);
    &&& m.fs == s && fids_on(nf, m.next_fid, 1)
    &&& w.fs == s && w.next_fid == m.next_fid
    &&& steps_to(w.step, leads, Ask::Bind { fid: nf, path })
    &&& a.fs == s && a.next_fid == m.next_fid
    &&& steps_to(a.step, leads.insert(nf, path), Ask::Stat { path })
    &&& n.next_fid == m.next_fid
    &&& new_inode(s.inodes, n.fs.inodes, ino, nf)
    &&& same_but_inode(s, n.fs, ino)
    &&& answers(
        n.step,
        Seq::empty(),
        ReplyOf::Entry { ttl: s.tuning.entry_ttl, attr: attrs::file_attr(ino, at) },
    )
    &&& gives_up(s, m.next_fid, waiting(m.step), e, seq![nf])
    &&& gives_up(s, m.next_fid, waiting(w.step), e, seq![nf])
    &&& gives_up(s, m.next_fid, waiting(a.step), e, seq![nf])
}

/// A mkdir makes the directory where it is asked for, with the permissions that were asked for.
pub proof fn mkdir_makes_the_directory(
    s: fuse9p::FsView,
    leads: Map<u32, Path>,
    at: Map<u64, Path>,
    opened: Map<u64, Path>,
    nf: u32,
    parent: u64,
    name: Seq<char>,
    mode: u32,
    gid: u32,
    done: Seq<calls::AnswerView>,
    a: Attr,
    e: i32,
)
    requires
        located(s, leads, at, opened),
        s.inodes.contains_key(parent),
    ensures
        ({
            let path = at[parent].push(name);
            let m = fuse9p::mkdir_started(s, nf, parent, name, mode, gid);
            &&& steps_to(m.step, leads, Ask::MakeDir { path, mode: mode & 0o7777, gid })
            &&& made_is_looked_up(s, leads, path, nf, m, done, a, e)
        }),
{
    assert(at[parent] + seq![name] =~= at[parent].push(name));
}

/// A symlink is made where it is asked for, to the target that was asked for.
pub proof fn symlink_makes_the_link(
    s: fuse9p::FsView,
    leads: Map<u32, Path>,
    at: Map<u64, Path>,
    opened: Map<u64, Path>,
    nf: u32,
    parent: u64,
    name: Seq<char>,
    target: Seq<char>,
    gid: u32,
    done: Seq<calls::AnswerView>,
    a: Attr,
    e: i32,
)
    requires
        located(s, leads, at, opened),
        s.inodes.contains_key(parent),
    ensures
        ({
            let path = at[parent].push(name);
            let m = fuse9p::symlink_started(s, nf, parent, name, target, gid);
            &&& steps_to(m.step, leads, Ask::MakeLink { path, target, gid })
            &&& made_is_looked_up(s, leads, path, nf, m, done, a, e)
        }),
{
    assert(at[parent] + seq![name] =~= at[parent].push(name));
}

/// An unlink removes the name in the directory that it is of, and so does an rmdir, with the flag that
/// says that it is to be a directory.
pub proof fn unlink_removes_the_name(
    s: fuse9p::FsView,
    leads: Map<u32, Path>,
    at: Map<u64, Path>,
    opened: Map<u64, Path>,
    nf: u32,
    parent: u64,
    name: Seq<char>,
    directory: bool,
    done: calls::AnswerView,
    e: i32,
)
    requires
        located(s, leads, at, opened),
        s.inodes.contains_key(parent),
    ensures
        ({
            let st = fuse9p::removal_started(s, parent, name, directory);
            let n = fuse9p::resumed(s, nf, waiting(st), Ok(done));
            let flags: u32 = if directory {
                0x200
            } else {
                0
            };
            &&& steps_to(st, leads, Ask::Remove { path: at[parent].push(name), flags })
            &&& n.fs == s && n.next_fid == nf && answers(n.step, Seq::empty(), ReplyOf::Empty)
            &&& gives_up(s, nf, waiting(st), e, Seq::empty())
        }),
{
}

/// A readlink tells the bytes of the target of the link that it is of.
pub proof fn readlink_is_of_its_link(
    s: fuse9p::FsView,
    leads: Map<u32, Path>,
    at: Map<u64, Path>,
    opened: Map<u64, Path>,
    nf: u32,
    ino: u64,
    target: Seq<char>,
    e: i32,
)
    requires
        located(s, leads, at, opened),
        s.inodes.contains_key(ino),
    ensures
        ({
            let st = fuse9p::readlink_started(s, ino);
            let n = fuse9p::resumed(s, nf, waiting(st), Ok(AnswerOf::Link(target)));
            &&& steps_to(st, leads, Ask::FollowLink { path: at[ino] })
            &&& n.fs == s && n.next_fid == nf
            &&& answers(n.step, Seq::empty(), ReplyOf::Data(vstd::utf8::encode_utf8(target)))
            &&& gives_up(s, nf, waiting(st), e, Seq::empty())
        }),
{
}

/// A statfs is of the file that it is of, or of the root where the kernel holds no such inode.
pub proof fn statfs_is_of_its_file(
    s: fuse9p::FsView,
    leads: Map<u32, Path>,
    at: Map<u64, Path>,
    opened: Map<u64, Path>,
    nf: u32,
    ino: u64,
    st: calls::StatFs,
    e: i32,
)
    requires
        located(s, leads, at, opened),
    ensures
        ({
            let b = fuse9p::statfs_started(s, ino);
            let n = fuse9p::resumed(s, nf, waiting(b), Ok(AnswerOf::Stat(st)));
            let path = if s.inodes.contains_key(ino) {
                at[ino]
            } else {
                leads[s.root_fid]
            };
            &&& steps_to(b, leads, Ask::Statistics { path })
            &&& n.fs == s && n.next_fid == nf
            &&& answers(n.step, Seq::empty(), ReplyOf::Stat(st))
            &&& gives_up(s, nf, waiting(b), e, Seq::empty())
        }),
{
}

/// A listing with attributes is of the directory that is open. A fresh fid is set aside for each entry,
/// to be walked from the directory's inode.
pub proof fn readdirplus_lists_its_directory(
    s: fuse9p::FsView,
    leads: Map<u32, Path>,
    at: Map<u64, Path>,
    opened: Map<u64, Path>,
    nf: u32,
    ino: u64,
    fh: u64,
    offset: i64,
    entries: Seq<ninep::DirEntryView>,
    e: i32,
)
    requires
        located(s, leads, at, opened),
        s.inodes.contains_key(ino),
        s.handles.contains_key(fh),
        nf + entries.len() <= u32::MAX,
    ensures
        ({
            let st = fuse9p::readdirplus_started(s, ino, fh, offset);
            let n = fuse9p::resumed(s, nf, waiting(st), Ok(AnswerOf::Entries(entries)));
            &&& steps_to(
                st,
                leads,
                Ask::List { path: opened[fh], offset: offset as u64, count: 8192 },
            )
            &&& gives_up(s, nf, waiting(st), e, Seq::empty())
            &&& n.fs == s && n.next_fid == nf + entries.len()
            &&& n.step matches StepOf::Prefetch { parent, wanted } && {
                &&& parent == s.inodes[ino].fid && leads[parent] == at[ino]
                &&& wanted.len() == entries.len()
                &&& forall|i: int|
                    0 <= i < entries.len() ==> (#[trigger] wanted[i]).entry == entries[i]
                        && wanted[i].fid == nf + i
            }
        }),
{
    lemma_nth_fids(nf, entries.len());
    assert forall|i: nat| i < entries.len() implies #[trigger] fuse9p::nth_fid(nf, i) == nf + i by {
        lemma_nth_fids(nf, i);
    }
}

proof fn lemma_nth_fids(nf: u32, k: nat)
    requires
        nf + k <= u32::MAX,
    ensures
        fuse9p::nth_fid(nf, k) == nf + k,
    decreases k,
{
    if k > 0 {
        lemma_nth_fids(nf, (k - 1) as nat);
    }
}

/// The attributes of an entry are those of the file of that name in the directory, and those of the
/// directory itself where the entry is the dot. What was fetched is what the server said; a fetch that
/// fails leaves no fid behind.
pub proof fn fetches_are_of_their_entry(
    leads: Map<u32, Path>,
    parent: u32,
    w: step::WantedView,
    walked: calls::AnswerView,
    a: Attr,
    e: i32,
)
    ensures
        ({
            let path = if w.entry.name == "."@ {
                leads[parent]
            } else {
                leads[parent].push(w.entry.name)
            };
            let f = readdirplus::fetch_started(parent, w);
            &&& f matches FetchOf::Call { call, op } && {
                &&& asked(leads, call) == (Ask::Bind { fid: w.fid, path })
                &&& readdirplus::fetch_resumed(op, Err(e)) matches FetchOf::Done { clunks, attr }
                    && clunks.len() == 0 && attr is None
                &&& readdirplus::fetch_resumed(op, Ok(walked)) matches FetchOf::Call {
                    call: stat,
                    op: last,
                } && {
                    &&& asked(leads.insert(w.fid, path), stat) == (Ask::Stat { path })
                    &&& readdirplus::fetch_resumed(last, Ok(AnswerOf::Attr(a))) matches FetchOf::Done {
                        clunks,
                        attr,
                    } && clunks.len() == 0 && attr == Some(a)
                    &&& readdirplus::fetch_resumed(last, Err(e)) matches FetchOf::Done {
                        clunks,
                        attr,
                    } && clunks == seq![w.fid] && attr is None
                }
            }
        }),
{
    assert(leads[parent] + Seq::<Seq<char>>::empty() =~= leads[parent]);
    assert(leads[parent] + seq![w.entry.name] =~= leads[parent].push(w.entry.name));
}

/// The next entry to offer from the `i`-th on is the first whose attributes were fetched: those before
/// it are passed over, none is offered twice, and it is offered under its name and offset with the
/// attributes that were fetched for it.
pub proof fn next_offer_is_the_next_fetched(
    s: fuse9p::FsView,
    list: Seq<readdirplus::FetchedView>,
    i: int,
    clunks: Seq<u32>,
)
    requires
        0 <= i <= list.len() <= usize::MAX,
    ensures
        match readdirplus::offer_from(s, list, i, clunks) {
            PlusStepOf::Offer { item, plus } => {
                let f = list[plus.next as int];
                &&& i <= plus.next < list.len() && plus.list == list && plus.clunks == clunks
                &&& forall|j: int| i <= j < plus.next ==> (#[trigger] list[j]).attr is None
                &&& f.attr matches Some(a) && {
                    &&& item.ino == number(s, a.qid.path)
                    &&& item.offset == f.entry.offset as i64
                    &&& item.name == f.entry.name
                    &&& item.ttl == s.tuning.entry_ttl
                    &&& item.attr == attrs::file_attr(number(s, a.qid.path), a)
                }
            },
            PlusStepOf::Finish { clunks: dropped } => {
                &&& dropped == clunks
                &&& forall|j: int| i <= j < list.len() ==> (#[trigger] list[j]).attr is None
            },
        },
    decreases list.len() - i,
{
    if i < list.len() && list[i].attr is None {
        next_offer_is_the_next_fetched(s, list, i + 1, clunks);
    }
}

/// An entry that was handed to the kernel is one more reference to its inode, and the entry behind it
/// is next. An entry that did not fit changes nothing: the listing is over, and its fid and those
/// behind it are dropped.
pub proof fn offers_are_lookups(s: fuse9p::FsView, p: readdirplus::PlusView)
    requires
        p.next < p.list.len() <= usize::MAX,
        p.list[p.next as int].attr is Some,
    ensures
        ({
            let f = p.list[p.next as int];
            let ino = number(s, f.attr->0.qid.path);
            let (t, after) = readdirplus::offered(s, p, true);
            let (u, end) = readdirplus::offered(s, p, false);
            let dropped = if s.inodes.contains_key(ino) {
                seq![f.fid]
            } else {
                Seq::empty()
            };
            &&& referred(s, t, ino, f.fid, dropped)
            &&& after == readdirplus::offer_from(t, p.list, p.next + 1, p.clunks + dropped)
            &&& u == s
            &&& end matches PlusStepOf::Finish { clunks } && {
                &&& forall|k: int|
                    p.next <= k < p.list.len() && p.list[k].attr is Some ==> clunks.contains(
                        #[trigger] p.list[k].fid,
                    )
                &&& forall|k: int| 0 <= k < p.clunks.len() ==> #[trigger] clunks[k] == p.clunks[k]
                &&& forall|j: int|
                    p.clunks.len() <= j < clunks.len() ==> in_use_from(
                        p.list,
                        p.next as int,
                        #[trigger] clunks[j],
                    )
            }
        }),
{
    lemma_fids_left(p.list, p.next as int);
    let left = readdirplus::fids_from(p.list, p.next as int);
    let clunks = p.clunks + left;
    assert forall|k: int|
        p.next <= k < p.list.len() && p.list[k].attr is Some implies clunks.contains(
        #[trigger] p.list[k].fid,
    ) by {
        let j = choose|j: int| 0 <= j < left.len() && left[j] == p.list[k].fid;
        assert(clunks[p.clunks.len() + j] == p.list[k].fid);
    }
    assert forall|j: int| p.clunks.len() <= j < clunks.len() implies in_use_from(
        p.list,
        p.next as int,
        #[trigger] clunks[j],
    ) by {
        assert(clunks[j] == left[j - p.clunks.len()]);
    }
}

/// That a fid leads to one of the entries from the `i`-th on.
pub open spec fn in_use_from(list: Seq<readdirplus::FetchedView>, i: int, fid: u32) -> bool {
    exists|k: int|
        i <= k < list.len() && (#[trigger] list[k]).attr is Some && list[k].fid == fid
}

proof fn lemma_fids_left(list: Seq<readdirplus::FetchedView>, i: int)
    requires
        0 <= i <= list.len(),
    ensures
        forall|k: int|
            i <= k < list.len() && list[k].attr is Some ==> readdirplus::fids_from(
                list,
                i,
            ).contains(#[trigger] list[k].fid),
        forall|j: int|
            0 <= j < readdirplus::fids_from(list, i).len() ==> in_use_from(
                list,
                i,
                #[trigger] readdirplus::fids_from(list, i)[j],
            ),
    decreases list.len() - i,
{
    if i < list.len() {
        lemma_fids_left(list, i + 1);
        let rest = readdirplus::fids_from(list, i + 1);
        let all = readdirplus::fids_from(list, i);
        if list[i].attr is Some {
            assert(all[0] == list[i].fid);
            assert forall|k: int| i <= k < list.len() && list[k].attr is Some implies all.contains(
                #[trigger] list[k].fid,
            ) by {
                if k > i {
                    let j = choose|j: int| 0 <= j < rest.len() && rest[j] == list[k].fid;
                    assert(all[j + 1] == list[k].fid);
                }
            }
        }
        assert forall|j: int| 0 <= j < all.len() implies in_use_from(list, i, #[trigger] all[j]) by {
            if list[i].attr is Some && j == 0 {
                assert(list[i].fid == all[j]);
            } else {
                let r: int = if list[i].attr is Some {
                    j - 1
                } else {
                    j
                };
                assert(all[j] == rest[r]);
            }
        }
    }
}

/// A request about an inode that the kernel does not hold is refused (2), one through a handle that is
/// not open too (9), and closing or flushing one does nothing. No call is made, and nothing changes.
pub proof fn unknown_files_are_refused(
    s: fuse9p::FsView,
    nf: u32,
    ino: u64,
    other: u64,
    name: Seq<char>,
    newname: Seq<char>,
    c: Changes,
    flags: i32,
    mode: u32,
    gid: u32,
    directory: bool,
)
    requires
        !s.inodes.contains_key(ino),
    ensures
        refused(s, nf, fuse9p::lookup_started(s, nf, ino, name)),
        answers(fuse9p::getattr_started(s, ino), Seq::empty(), ReplyOf::Error(2)),
        answers(fuse9p::setattr_started(s, ino, c), Seq::empty(), ReplyOf::Error(2)),
        refused(s, nf, fuse9p::open_started(s, nf, ino, flags)),
        refused(s, nf, fuse9p::opendir_started(s, nf, ino)),
        refused(s, nf, fuse9p::create_started(s, nf, ino, name, mode, flags, gid)),
        refused(s, nf, fuse9p::mkdir_started(s, nf, ino, name, mode, gid)),
        refused(s, nf, fuse9p::symlink_started(s, nf, ino, name, newname, gid)),
        answers(
            fuse9p::removal_started(s, ino, name, directory),
            Seq::empty(),
            ReplyOf::Error(2),
        ),
        answers(
            fuse9p::rename_started(s, ino, name, other, newname),
            Seq::empty(),
            ReplyOf::Error(2),
        ),
        answers(
            fuse9p::rename_started(s, other, name, ino, newname),
            Seq::empty(),
            ReplyOf::Error(2),
        ),
        answers(fuse9p::readlink_started(s, ino), Seq::empty(), ReplyOf::Error(2)),
{
}

/// That a request was refused because there is no such inode.
pub open spec fn refused(s: fuse9p::FsView, nf: u32, m: fuse9p::Moved) -> bool {
    m.fs == s && m.next_fid == nf && answers(m.step, Seq::empty(), ReplyOf::Error(2))
}

/// See [`unknown_files_are_refused`].
pub proof fn unknown_handles_are_refused(
    s: fuse9p::FsView,
    ino: u64,
    fh: u64,
    offset: i64,
    size: u32,
    data: Seq<u8>,
)
    ensures
        !s.handles.contains_key(fh) ==> {
            &&& answers(
                fuse9p::read_started(s, fh, offset, size),
                Seq::empty(),
                ReplyOf::Error(9),
            )
            &&& answers(
                fuse9p::write_started(s, fh, offset, data),
                Seq::empty(),
                ReplyOf::Error(9),
            )
            &&& answers(fuse9p::readdir_started(s, fh, offset), Seq::empty(), ReplyOf::Error(9))
            &&& answers(
                fuse9p::readdirplus_started(s, ino, fh, offset),
                Seq::empty(),
                ReplyOf::Error(9),
            )
            &&& fuse9p::release_started(s, fh).0 == s
            &&& answers(fuse9p::release_started(s, fh).1, Seq::empty(), ReplyOf::Empty)
            &&& fuse9p::releasedir_started(s, fh).0 == s
            &&& answers(fuse9p::releasedir_started(s, fh).1, Seq::empty(), ReplyOf::Empty)
            &&& answers(fuse9p::flush_started(s, fh), Seq::empty(), ReplyOf::Empty)
            &&& answers(fuse9p::fsync_started(s, fh), Seq::empty(), ReplyOf::Empty)
        },
        s.handles.contains_key(fh) && !s.inodes.contains_key(ino) ==> answers(
            fuse9p::readdirplus_started(s, ino, fh, offset),
            Seq::empty(),
            ReplyOf::Error(2),
        ),
{
}

/// Whether an answer is of the kind that a waiting request is for.
pub open spec fn expected(op: step::OpView, a: calls::AnswerView) -> bool {
    match op {
        OpOf::LookupAttr { .. }
        | OpOf::Attr { .. }
        | OpOf::CreateAttr { .. }
        | OpOf::MakeAttr { .. } => a is Attr,
        OpOf::Read => a is Data,
        OpOf::Write { .. } => a is Count,
        OpOf::Readdir | OpOf::ReaddirPlus { .. } => a is Entries,
        OpOf::RenameWalk { .. } => a is Qids,
        OpOf::Readlink => a is Link,
        OpOf::Statfs => a is Stat,
        _ => true,
    }
}

/// An answer of a kind that the request is not for counts as an I/O error (5).
pub proof fn strange_answers_are_errors(
    s: fuse9p::FsView,
    nf: u32,
    op: step::OpView,
    a: calls::AnswerView,
)
    requires
        !expected(op, a),
    ensures
        fuse9p::resumed(s, nf, op, Ok(a)) == fuse9p::resumed(s, nf, op, Err(5)),
{
}

/// What was just mounted holds the root only, at the fid that the mount has for it, and nothing is
/// open.
pub proof fn mounts_hold_the_root(msize: u32, root_fid: u32, path: u64, tuning: crate::Tuning)
    ensures
        ({
            let s = fuse9p::mounted(msize, root_fid, path, tuning);
            &&& forall|i: u64| #[trigger] s.inodes.contains_key(i) == (i == 1)
            &&& s.inodes[1].fid == root_fid && s.inodes[1].lookups == 1
            &&& forall|h: u64| !#[trigger] s.handles.contains_key(h)
            &&& s.next_fh == 1 && s.msize == msize && s.root_fid == root_fid
            &&& s.root_qid_path == path && s.tuning == tuning
        }),
{
}

/// What the kernel forgets: references to one inode. Its fid is dropped with the last of them, and
/// nothing else changes. The root is never forgotten.
pub proof fn forget_takes_references(s: fuse9p::FsView, ino: u64, n: u64)
    ensures
        ({
            let (t, dropped) = fuse9p::forgotten(s, ino, n);
            if ino == 1 || !s.inodes.contains_key(ino) {
                t == s && dropped.len() == 0
            } else if n < s.inodes[ino].lookups {
                &&& same_but_inode(s, t, ino) && dropped.len() == 0
                &&& t.inodes[ino].fid == s.inodes[ino].fid
                &&& t.inodes[ino].lookups + n == s.inodes[ino].lookups
            } else {
                &&& !t.inodes.contains_key(ino) && dropped == seq![s.inodes[ino].fid]
                &&& forall|i: u64|
                    i != ino ==> (#[trigger] t.inodes.contains_key(i) == s.inodes.contains_key(i))
                &&& forall|i: u64|
                    i != ino && s.inodes.contains_key(i) ==> #[trigger] t.inodes[i] == s.inodes[i]
                &&& t.handles == s.handles && t.next_fh == s.next_fh
                &&& t.root_qid_path == s.root_qid_path && t.tuning == s.tuning
                &&& t.msize == s.msize && t.root_fid == s.root_fid
            }
        }),
{
}

/// Writes of a handle are deferred exactly where it says how many may be in flight, and a handle that
/// was just opened to be written lets at least one be.
pub proof fn deferring_handles_say_how_many(
    s: fuse9p::FsView,
    fh: u64,
    offset: i64,
    data: Seq<u8>,
    fid: u32,
    written: bool,
)
    ensures
        fuse9p::deferral(s, fh) is Some <==> fuse9p::write_started(s, fh, offset, data) is Defer,
        fuse9p::deferral(s, fh) is Some <==> fuse9p::flush_started(s, fh) is Drain,
        ({
            let t = s.opened(fid, written);
            &&& fuse9p::deferral(t, s.next_fh) is Some <==> written && s.tuning.writeback
            &&& fuse9p::deferral(t, s.next_fh) matches Some(n) ==> n >= 1 && (s.tuning.wb_depth >= 1
                ==> n == s.tuning.wb_depth)
        }),
{
}

/// What a request comes to is what it is told to: the state, the fids handed out and the step, with
/// the rest of the client left as it was.
pub proof fn moves_are_as_told(
    before: crate::client::ClientView,
    fs: fuse9p::FsView,
    after: crate::client::ClientView,
    st: step::StepView,
    m: fuse9p::Moved,
)
    requires
        fuse9p::moved(before, fs, after, st, m),
    ensures
        fs == m.fs,
        st == m.step,
        after.next_fid == m.next_fid,
        after.next_tag == before.next_tag && after.waiting == before.waiting,
        after.acc == before.acc && after.msize == before.msize,
        after.root_fid == before.root_fid,
{
}

} // verus!
