//! The file system that the kernel sees: inodes, open handles, and how each kernel request is served
//! by calls to the server.

use crate::attrs;
use crate::attrs::{Changes, FileAttr, PERM_MASK, ROOT_INO};
use crate::calls;
use crate::calls::{Answer, AnswerOf, Call, CallOf, EBADF, EIO, ENOENT};
use crate::client;
use crate::client::NineClient;
use crate::ninep;
use crate::ninep::{Attr, DirEntry};
use crate::step;
use crate::step::{
    DirItem, DirItemOf, DrainOp, Op, OpOf, ReplyOf, Step, StepOf, Wanted, WantedOf,
};
use crate::tuning;
use crate::tuning::{KernelWants, Span, Tuning};
use crate::writeback;
use crate::writeback::{JobOf, WriteJob};
use std::collections::HashMap;
use vstd::prelude::*;

verus! {

broadcast use vstd::std_specs::hash::group_hash_axioms;

// Open flags.
pub const O_ACCMODE: u32 = 0o3;
pub const O_RDONLY: u32 = 0o0;
pub const O_WRONLY: u32 = 0o1;
pub const O_RDWR: u32 = 0o2;
pub const O_CLOEXEC: u32 = 0o2000000;

/// Asks an unlinkat to remove a directory.
pub const AT_REMOVEDIR: u32 = 0x200;

/// How many bytes of entries one directory read asks for.
pub const READDIR_COUNT: u32 = 8192;

/// The part of a message that its header takes, with some to spare.
pub const IO_HEADROOM: u32 = 24;

/// What is known of an inode. `fid` was walked to it and never opened; attributes are read and
/// changed through it, and it is cloned to open the file and to walk to its children. `lookups`
/// counts the references that the kernel holds.
#[derive(Clone, Copy, Debug, PartialEq, Eq)]
pub struct Inode {
    pub fid: u32,
    pub lookups: u64,
}

/// An open file or directory: the opened fid and, where its writes are deferred, how many of them
/// may be in flight.
#[derive(Clone, Copy, Debug, PartialEq, Eq)]
pub struct FileHandle {
    pub fid: u32,
    pub depth: Option<usize>,
}

/// What a `Fuse9p` holds.
#[verifier::ext_equal]
pub struct FsView {
    pub inodes: Map<u64, Inode>,
    pub handles: Map<u64, FileHandle>,
    pub next_fh: u64,
    pub root_qid_path: u64,
    pub tuning: Tuning,
    pub msize: u32,
    pub root_fid: u32,
}

/// The state of a mounted file system.
pub struct Fuse9p {
    tuning: Tuning,
    inodes: HashMap<u64, Inode>,
    /// The qid path of the export's root, which is the mount's root inode.
    root_qid_path: u64,
    handles: HashMap<u64, FileHandle>,
    next_fh: u64,
    msize: u32,
    root_fid: u32,
}

impl View for Fuse9p {
    type V = FsView;

    closed spec fn view(&self) -> FsView {
        FsView {
            inodes: self.inodes@,
            handles: self.handles@,
            next_fh: self.next_fh,
            root_qid_path: self.root_qid_path,
            tuning: self.tuning,
            msize: self.msize,
            root_fid: self.root_fid,
        }
    }
}

/// The file system after something happened, the next fid to hand out, and what to do next.
#[verifier::ext_equal]
pub struct Moved {
    pub fs: FsView,
    pub next_fid: u32,
    pub step: step::StepView,
}

/// A number and its successor, or itself where there is none.
pub open spec fn bumped(n: u64) -> u64 {
    if n == u64::MAX {
        n
    } else {
        (n + 1) as u64
    }
}

/// The bytes of a file that one message can carry.
pub open spec fn io_room(msize: u32) -> u32 {
    if msize < IO_HEADROOM {
        0
    } else {
        (msize - IO_HEADROOM) as u32
    }
}

impl FsView {
    /// The fid of an inode that the kernel holds.
    pub open spec fn fid_of(self, ino: u64) -> Option<u32> {
        if self.inodes.contains_key(ino) {
            Some(self.inodes[ino].fid)
        } else {
            None
        }
    }

    /// The inode number for a qid path.
    pub open spec fn intern(self, qid_path: u64) -> u64 {
        attrs::ino_of(qid_path, self.root_qid_path)
    }

    /// One more reference to an inode, which `fid` leads to. Where the inode is known already, it
    /// keeps the fid it has.
    pub open spec fn looked_up(self, ino: u64, fid: u32) -> FsView {
        FsView {
            inodes: self.inodes.insert(
                ino,
                if self.inodes.contains_key(ino) {
                    Inode {
                        fid: self.inodes[ino].fid,
                        lookups: bumped(self.inodes[ino].lookups),
                    }
                } else {
                    Inode { fid, lookups: 1 }
                },
            ),
            ..self
        }
    }

    /// The fids that a lookup leaves over: the new one, if the inode has one.
    pub open spec fn spare(self, ino: u64, fid: u32) -> Seq<u32> {
        if self.inodes.contains_key(ino) {
            seq![fid]
        } else {
            Seq::empty()
        }
    }

    /// A new inode, with one reference.
    pub open spec fn made(self, ino: u64, fid: u32) -> FsView {
        FsView { inodes: self.inodes.insert(ino, Inode { fid, lookups: 1 }), ..self }
    }

    /// The handle that an opened fid gets. Writes are deferred where the file is writable and the
    /// knob is on.
    pub open spec fn handle_for(self, fid: u32, writable: bool) -> FileHandle {
        FileHandle {
            fid,
            depth: if writable && self.tuning.writeback {
                Some(
                    if self.tuning.wb_depth == 0 {
                        1
                    } else {
                        self.tuning.wb_depth
                    },
                )
            } else {
                None
            },
        }
    }

    /// A fresh handle for an opened fid. Its number is `next_fh`.
    pub open spec fn opened(self, fid: u32, writable: bool) -> FsView {
        FsView {
            handles: self.handles.insert(self.next_fh, self.handle_for(fid, writable)),
            next_fh: self.next_fh.wrapping_add(1),
            ..self
        }
    }

    /// That a request was answered without more ado.
    pub open spec fn answers(self, next_fid: u32, reply: step::ReplyView) -> Moved {
        Moved { fs: self, next_fid, step: step::replied(reply) }
    }

    /// That the fids in `clunks` are dropped and an error is the answer.
    pub open spec fn fails(self, next_fid: u32, clunks: Seq<u32>, e: i32) -> Moved {
        Moved { fs: self, next_fid, step: step::failed(clunks, e) }
    }

    /// That the server is asked something.
    pub open spec fn asks(self, next_fid: u32, call: calls::CallView, op: step::OpView) -> Moved {
        Moved { fs: self, next_fid, step: StepOf::Call { call, op } }
    }
}

/// The file system at the start: the root inode, which the export's root fid leads to.
pub open spec fn mounted(msize: u32, root_fid: u32, root_qid_path: u64, tuning: Tuning) -> FsView {
    FsView {
        inodes: map![ROOT_INO => Inode { fid: root_fid, lookups: 1 }],
        handles: Map::empty(),
        next_fh: 1,
        root_qid_path,
        tuning,
        msize,
        root_fid,
    }
}

/// The flags that the server gets for an open. The kernel's writeback cache reads back parts of
/// pages even of a file that was opened for writing only, so such an open asks for reading too.
pub open spec fn open_flags(flags: i32, writeback: bool) -> u32 {
    let oflags = (flags as u32) & !O_CLOEXEC;
    if writeback && oflags & O_ACCMODE == O_WRONLY {
        (oflags & !O_ACCMODE) | O_RDWR
    } else {
        oflags
    }
}

/// Whether a file opened with these flags can be written.
pub open spec fn is_writable(oflags: u32) -> bool {
    oflags & O_ACCMODE != O_RDONLY
}

/// That a step has moved the file system and the fid counter as `m` says, and nothing else.
pub open spec fn moved(
    client_before: client::ClientView,
    fs_after: FsView,
    client_after: client::ClientView,
    step_taken: step::StepView,
    m: Moved,
) -> bool {
    &&& fs_after == m.fs
    &&& client_after == (client::ClientView { next_fid: m.next_fid, ..client_before })
    &&& step_taken == m.step
}

/// A lookup walks a fresh fid from the parent to the name.
pub open spec fn lookup_started(s: FsView, nf: u32, parent: u64, name: Seq<char>) -> Moved {
    match s.fid_of(parent) {
        None => s.fails(nf, Seq::empty(), ENOENT),
        Some(fid) => s.asks(
            client::next_fid(nf),
            CallOf::Walk { fid, newfid: nf, names: seq![name] },
            OpOf::LookupWalk { newfid: nf },
        ),
    }
}

/// A lookup that failed drops its fid. That there is no such name is remembered where the knob is
/// on; other errors are told.
pub open spec fn lookup_failed(s: FsView, nf: u32, newfid: u32, e: i32) -> Moved {
    match s.tuning.negative_ttl {
        Some(ttl) if e == ENOENT => Moved {
            fs: s,
            next_fid: nf,
            step: StepOf::Finish {
                clunks: seq![newfid],
                reply: ReplyOf::Entry { ttl, attr: attrs::no_attr() },
            },
        },
        _ => s.fails(nf, seq![newfid], e),
    }
}

/// A lookup that succeeded counts as a reference to the inode.
pub open spec fn lookup_found(s: FsView, nf: u32, newfid: u32, a: Attr) -> Moved {
    let ino = s.intern(a.qid.path);
    Moved {
        fs: s.looked_up(ino, newfid),
        next_fid: nf,
        step: StepOf::Finish {
            clunks: s.spare(ino, newfid),
            reply: ReplyOf::Entry { ttl: s.tuning.entry_ttl, attr: attrs::file_attr(ino, a) },
        },
    }
}

/// The kernel gives back `n` references to an inode. When none is left, the inode and its fid are
/// dropped; the root stays.
pub open spec fn forgotten(s: FsView, ino: u64, n: u64) -> (FsView, Seq<u32>) {
    if ino == ROOT_INO || !s.inodes.contains_key(ino) {
        (s, Seq::empty())
    } else if s.inodes[ino].lookups <= n {
        (FsView { inodes: s.inodes.remove(ino), ..s }, seq![s.inodes[ino].fid])
    } else {
        (
            FsView {
                inodes: s.inodes.insert(
                    ino,
                    Inode {
                        fid: s.inodes[ino].fid,
                        lookups: (s.inodes[ino].lookups - n) as u64,
                    },
                ),
                ..s
            },
            Seq::empty(),
        )
    }
}

pub open spec fn getattr_started(s: FsView, ino: u64) -> step::StepView {
    match s.fid_of(ino) {
        None => step::failed(Seq::empty(), ENOENT),
        Some(fid) => StepOf::Call { call: CallOf::Getattr { fid }, op: OpOf::Attr { ino } },
    }
}

pub open spec fn setattr_started(s: FsView, ino: u64, c: Changes) -> step::StepView {
    match s.fid_of(ino) {
        None => step::failed(Seq::empty(), ENOENT),
        Some(fid) => StepOf::Call {
            call: attrs::setattr_call(fid, c),
            op: OpOf::Setattr { ino, fid },
        },
    }
}

/// An open clones the inode's fid into a fresh one.
pub open spec fn cloned_to_open(
    s: FsView,
    nf: u32,
    ino: u64,
    flags: u32,
    writable: bool,
) -> Moved {
    match s.fid_of(ino) {
        None => s.fails(nf, Seq::empty(), ENOENT),
        Some(fid) => s.asks(
            client::next_fid(nf),
            CallOf::Walk { fid, newfid: nf, names: Seq::empty() },
            OpOf::OpenClone { newfid: nf, flags, writable },
        ),
    }
}

pub open spec fn open_started(s: FsView, nf: u32, ino: u64, flags: i32) -> Moved {
    let oflags = open_flags(flags, s.tuning.writeback);
    cloned_to_open(s, nf, ino, oflags, is_writable(oflags))
}

/// A directory is opened for reading, and is never written.
pub open spec fn opendir_started(s: FsView, nf: u32, ino: u64) -> Moved {
    cloned_to_open(s, nf, ino, O_RDONLY, false)
}

/// A read asks for no more than one message can carry.
pub open spec fn read_started(s: FsView, fh: u64, offset: i64, size: u32) -> step::StepView {
    if s.handles.contains_key(fh) {
        StepOf::Call {
            call: CallOf::Read {
                fid: s.handles[fh].fid,
                offset: offset as u64,
                count: if size < io_room(s.msize) {
                    size
                } else {
                    io_room(s.msize)
                },
            },
            op: OpOf::Read,
        }
    } else {
        step::failed(Seq::empty(), EBADF)
    }
}

/// A write goes on while bytes of it are left.
pub open spec fn write_continued(job: writeback::JobView, len: u32) -> step::StepView {
    match writeback::job_call(job) {
        Some(call) => StepOf::Call { call, op: OpOf::Write { job, len } },
        None => step::replied(ReplyOf::Written(len)),
    }
}

/// A write is deferred where the handle defers writes, else it is made at once.
pub open spec fn write_started(
    s: FsView,
    fh: u64,
    offset: i64,
    data: Seq<u8>,
) -> step::StepView {
    if s.handles.contains_key(fh) {
        let h = s.handles[fh];
        let job = writeback::fresh_job(h.fid, offset as u64, data, io_room(s.msize) as usize);
        if h.depth is Some {
            StepOf::Defer { fh, job, len: data.len() as u32 }
        } else {
            write_continued(job, data.len() as u32)
        }
    } else {
        step::failed(Seq::empty(), EBADF)
    }
}

/// How many writes of a handle may be in flight, if the handle defers writes.
pub open spec fn deferral(s: FsView, fh: u64) -> Option<usize> {
    if s.handles.contains_key(fh) {
        s.handles[fh].depth
    } else {
        None
    }
}

/// A closed handle is gone. Its deferred writes end before its fid is dropped.
pub open spec fn release_started(s: FsView, fh: u64) -> (FsView, step::StepView) {
    if s.handles.contains_key(fh) {
        let h = s.handles[fh];
        (
            FsView { handles: s.handles.remove(fh), ..s },
            if h.depth is Some {
                StepOf::Drain { fh, op: DrainOp::Release { fid: h.fid } }
            } else {
                StepOf::Finish { clunks: seq![h.fid], reply: ReplyOf::Empty }
            },
        )
    } else {
        (s, step::replied(ReplyOf::Empty))
    }
}

pub open spec fn releasedir_started(s: FsView, fh: u64) -> (FsView, step::StepView) {
    if s.handles.contains_key(fh) {
        (
            FsView { handles: s.handles.remove(fh), ..s },
            StepOf::Finish { clunks: seq![s.handles[fh].fid], reply: ReplyOf::Empty },
        )
    } else {
        (s, step::replied(ReplyOf::Empty))
    }
}

pub open spec fn readdir_started(s: FsView, fh: u64, offset: i64) -> step::StepView {
    if s.handles.contains_key(fh) {
        StepOf::Call {
            call: CallOf::Readdir {
                fid: s.handles[fh].fid,
                offset: offset as u64,
                count: READDIR_COUNT,
            },
            op: OpOf::Readdir,
        }
    } else {
        step::failed(Seq::empty(), EBADF)
    }
}

/// Entries are read through the handle's fid, and walked to from the directory's own.
pub open spec fn readdirplus_started(s: FsView, ino: u64, fh: u64, offset: i64) -> step::StepView {
    if !s.handles.contains_key(fh) {
        step::failed(Seq::empty(), EBADF)
    } else {
        match s.fid_of(ino) {
            None => step::failed(Seq::empty(), ENOENT),
            Some(parent) => StepOf::Call {
                call: CallOf::Readdir {
                    fid: s.handles[fh].fid,
                    offset: offset as u64,
                    count: READDIR_COUNT,
                },
                op: OpOf::ReaddirPlus { parent },
            },
        }
    }
}

/// A create takes two fresh fids: one to create and open the file through, one to lead to it.
pub open spec fn create_started(
    s: FsView,
    nf: u32,
    parent: u64,
    name: Seq<char>,
    mode: u32,
    flags: i32,
    gid: u32,
) -> Moved {
    match s.fid_of(parent) {
        None => s.fails(nf, Seq::empty(), ENOENT),
        Some(fid) => s.asks(
            client::next_fid(client::next_fid(nf)),
            CallOf::Walk { fid, newfid: nf, names: Seq::empty() },
            OpOf::CreateClone {
                parent: fid,
                openfid: nf,
                basefid: client::next_fid(nf),
                name,
                flags: (flags as u32) & !O_CLOEXEC,
                mode: mode & PERM_MASK,
                gid,
            },
        ),
    }
}

pub open spec fn mkdir_started(
    s: FsView,
    nf: u32,
    parent: u64,
    name: Seq<char>,
    mode: u32,
    gid: u32,
) -> Moved {
    match s.fid_of(parent) {
        None => s.fails(nf, Seq::empty(), ENOENT),
        Some(fid) => s.asks(
            client::next_fid(nf),
            CallOf::Mkdir { dfid: fid, name, mode: mode & PERM_MASK, gid },
            OpOf::Make { parent: fid, basefid: nf, name },
        ),
    }
}

pub open spec fn symlink_started(
    s: FsView,
    nf: u32,
    parent: u64,
    name: Seq<char>,
    target: Seq<char>,
    gid: u32,
) -> Moved {
    match s.fid_of(parent) {
        None => s.fails(nf, Seq::empty(), ENOENT),
        Some(fid) => s.asks(
            client::next_fid(nf),
            CallOf::Symlink { dfid: fid, name, target, gid },
            OpOf::Make { parent: fid, basefid: nf, name },
        ),
    }
}

/// An unlink (`flags` 0) or an rmdir (`AT_REMOVEDIR`).
pub open spec fn unlink_started(
    s: FsView,
    parent: u64,
    name: Seq<char>,
    flags: u32,
) -> step::StepView {
    match s.fid_of(parent) {
        None => step::failed(Seq::empty(), ENOENT),
        Some(fid) => StepOf::Call {
            call: CallOf::Unlinkat { dfid: fid, name, flags },
            op: OpOf::Plain,
        },
    }
}

/// An rmdir removes a directory, an unlink anything else.
pub open spec fn removal_started(
    s: FsView,
    parent: u64,
    name: Seq<char>,
    directory: bool,
) -> step::StepView {
    unlink_started(
        s,
        parent,
        name,
        if directory {
            AT_REMOVEDIR
        } else {
            0
        },
    )
}

/// Every close flushes: an error of the deferred writes is told then.
pub open spec fn flush_started(s: FsView, fh: u64) -> step::StepView {
    if s.handles.contains_key(fh) && s.handles[fh].depth is Some {
        StepOf::Drain { fh, op: DrainOp::Flush }
    } else {
        step::replied(ReplyOf::Empty)
    }
}

pub open spec fn fsync_started(s: FsView, fh: u64) -> step::StepView {
    if s.handles.contains_key(fh) {
        let h = s.handles[fh];
        if h.depth is Some {
            StepOf::Drain { fh, op: DrainOp::Fsync { fid: h.fid } }
        } else {
            StepOf::Call { call: CallOf::Fsync { fid: h.fid }, op: OpOf::Plain }
        }
    } else {
        step::replied(ReplyOf::Empty)
    }
}

pub open spec fn rename_started(
    s: FsView,
    parent: u64,
    name: Seq<char>,
    newparent: u64,
    newname: Seq<char>,
) -> step::StepView {
    match (s.fid_of(parent), s.fid_of(newparent)) {
        (Some(olddfid), Some(newdfid)) => StepOf::Call {
            call: CallOf::Renameat { olddfid, oldname: name, newdfid, newname },
            op: OpOf::Rename { newparent: newdfid, newname },
        },
        _ => step::failed(Seq::empty(), ENOENT),
    }
}

pub open spec fn readlink_started(s: FsView, ino: u64) -> step::StepView {
    match s.fid_of(ino) {
        None => step::failed(Seq::empty(), ENOENT),
        Some(fid) => StepOf::Call { call: CallOf::Readlink { fid }, op: OpOf::Readlink },
    }
}

/// An inode that is not known stands for the whole file system.
pub open spec fn statfs_started(s: FsView, ino: u64) -> step::StepView {
    let fid = match s.fid_of(ino) {
        Some(fid) => fid,
        None => s.root_fid,
    };
    StepOf::Call { call: CallOf::Statfs { fid }, op: OpOf::Statfs }
}

/// The entry that a directory read hands to the kernel.
pub open spec fn dir_item(s: FsView, e: ninep::DirEntryView) -> step::DirItemView {
    DirItemOf {
        ino: s.intern(e.qid.path),
        offset: e.offset as i64,
        kind: attrs::qid_kind(e.qid.typ),
        name: e.name,
    }
}

pub open spec fn dir_items(
    s: FsView,
    entries: Seq<ninep::DirEntryView>,
) -> Seq<step::DirItemView> {
    Seq::new(entries.len(), |i: int| dir_item(s, entries[i]))
}

/// The `k`-th fid from `nf` on.
pub open spec fn nth_fid(nf: u32, k: nat) -> u32
    decreases k,
{
    if k == 0 {
        nf
    } else {
        client::next_fid(nth_fid(nf, (k - 1) as nat))
    }
}

/// A fresh fid for each entry.
pub open spec fn wanted_for(
    nf: u32,
    entries: Seq<ninep::DirEntryView>,
) -> Seq<step::WantedView> {
    Seq::new(entries.len(), |i: int| WantedOf { entry: entries[i], fid: nth_fid(nf, i as nat) })
}

/// A rename is done, whatever comes of the walk to the new name. Where the walk succeeded and the
/// kernel holds the inode, the inode's stale fid is replaced and dropped; else the fresh one is.
pub open spec fn renamed(
    s: FsView,
    nf: u32,
    freshfid: u32,
    o: calls::Outcome,
) -> Moved {
    match step::walked_to(o) {
        Ok(path) if s.inodes.contains_key(s.intern(path)) => {
            let inode = s.inodes[s.intern(path)];
            Moved {
                fs: FsView {
                    inodes: s.inodes.insert(
                        s.intern(path),
                        Inode { fid: freshfid, lookups: inode.lookups },
                    ),
                    ..s
                },
                next_fid: nf,
                step: StepOf::Finish { clunks: seq![inode.fid], reply: ReplyOf::Empty },
            }
        },
        _ => Moved {
            fs: s,
            next_fid: nf,
            step: StepOf::Finish { clunks: seq![freshfid], reply: ReplyOf::Empty },
        },
    }
}

/// A file was created: it has an inode and an open, writable handle.
pub open spec fn created(s: FsView, nf: u32, openfid: u32, basefid: u32, a: Attr) -> Moved {
    let ino = s.intern(a.qid.path);
    s.made(ino, basefid).opened(openfid, true).answers(
        nf,
        ReplyOf::Created {
            ttl: s.tuning.entry_ttl,
            attr: attrs::file_attr(ino, a),
            fh: s.next_fh,
        },
    )
}

/// A directory or symlink was made.
pub open spec fn made_entry(s: FsView, nf: u32, basefid: u32, a: Attr) -> Moved {
    let ino = s.intern(a.qid.path);
    s.made(ino, basefid).answers(
        nf,
        ReplyOf::Entry { ttl: s.tuning.entry_ttl, attr: attrs::file_attr(ino, a) },
    )
}

/// How a waiting request goes on when its call has come out as `o`.
pub open spec fn resumed(s: FsView, nf: u32, op: step::OpView, o: calls::Outcome) -> Moved {
    match op {
        OpOf::LookupWalk { newfid } => match step::success(o) {
            Ok(_) => s.asks(nf, CallOf::Getattr { fid: newfid }, OpOf::LookupAttr { newfid }),
            Err(e) => lookup_failed(s, nf, newfid, e),
        },
        OpOf::LookupAttr { newfid } => match step::attr_of(o) {
            Ok(a) => lookup_found(s, nf, newfid, a),
            Err(e) => lookup_failed(s, nf, newfid, e),
        },
        OpOf::Attr { ino } => match step::attr_of(o) {
            Ok(a) => s.answers(
                nf,
                ReplyOf::Attr { ttl: s.tuning.attr_ttl, attr: attrs::file_attr(ino, a) },
            ),
            Err(e) => s.fails(nf, Seq::empty(), e),
        },
        OpOf::Setattr { ino, fid } => match step::success(o) {
            Ok(_) => s.asks(nf, CallOf::Getattr { fid }, OpOf::Attr { ino }),
            Err(e) => s.fails(nf, Seq::empty(), e),
        },
        OpOf::OpenClone { newfid, flags, writable } => match step::success(o) {
            Ok(_) => s.asks(
                nf,
                CallOf::Lopen { fid: newfid, flags },
                OpOf::Open { newfid, writable },
            ),
            Err(e) => s.fails(nf, seq![newfid], e),
        },
        OpOf::Open { newfid, writable } => match step::success(o) {
            Ok(_) => s.opened(newfid, writable).answers(nf, ReplyOf::Opened { fh: s.next_fh }),
            Err(e) => s.fails(nf, seq![newfid], e),
        },
        OpOf::Read => match o {
            Ok(AnswerOf::Data(d)) => s.answers(nf, ReplyOf::Data(d)),
            Ok(_) => s.fails(nf, Seq::empty(), EIO),
            Err(e) => s.fails(nf, Seq::empty(), e),
        },
        OpOf::Write { job, len } => match writeback::job_advanced(job, o) {
            Ok(next) => Moved { fs: s, next_fid: nf, step: write_continued(next, len) },
            Err(e) => s.fails(nf, Seq::empty(), e),
        },
        OpOf::Readdir => match step::entries_of(o) {
            Ok(entries) => s.answers(nf, ReplyOf::List(dir_items(s, entries))),
            Err(e) => s.fails(nf, Seq::empty(), e),
        },
        OpOf::ReaddirPlus { parent } => match step::entries_of(o) {
            Ok(entries) => Moved {
                fs: s,
                next_fid: nth_fid(nf, entries.len()),
                step: StepOf::Prefetch { parent, wanted: wanted_for(nf, entries) },
            },
            Err(e) => s.fails(nf, Seq::empty(), e),
        },
        OpOf::CreateClone { parent, openfid, basefid, name, flags, mode, gid } => match step::success(
            o,
        ) {
            Ok(_) => s.asks(
                nf,
                CallOf::Lcreate { dfid: openfid, name, flags, mode, gid },
                OpOf::Create { parent, openfid, basefid, name },
            ),
            Err(e) => s.fails(nf, seq![openfid, basefid], e),
        },
        OpOf::Create { parent, openfid, basefid, name } => match step::success(o) {
            Ok(_) => s.asks(
                nf,
                CallOf::Walk { fid: parent, newfid: basefid, names: seq![name] },
                OpOf::CreateWalk { openfid, basefid },
            ),
            Err(e) => s.fails(nf, seq![openfid, basefid], e),
        },
        OpOf::CreateWalk { openfid, basefid } => match step::success(o) {
            Ok(_) => s.asks(
                nf,
                CallOf::Getattr { fid: basefid },
                OpOf::CreateAttr { openfid, basefid },
            ),
            Err(e) => s.fails(nf, seq![openfid, basefid], e),
        },
        OpOf::CreateAttr { openfid, basefid } => match step::attr_of(o) {
            Ok(a) => created(s, nf, openfid, basefid, a),
            Err(e) => s.fails(nf, seq![openfid, basefid], e),
        },
        OpOf::Make { parent, basefid, name } => match step::success(o) {
            Ok(_) => s.asks(
                nf,
                CallOf::Walk { fid: parent, newfid: basefid, names: seq![name] },
                OpOf::MakeWalk { basefid },
            ),
            Err(e) => s.fails(nf, seq![basefid], e),
        },
        OpOf::MakeWalk { basefid } => match step::success(o) {
            Ok(_) => s.asks(nf, CallOf::Getattr { fid: basefid }, OpOf::MakeAttr { basefid }),
            Err(e) => s.fails(nf, seq![basefid], e),
        },
        OpOf::MakeAttr { basefid } => match step::attr_of(o) {
            Ok(a) => made_entry(s, nf, basefid, a),
            Err(e) => s.fails(nf, seq![basefid], e),
        },
        OpOf::Rename { newparent, newname } => match step::success(o) {
            Ok(_) => s.asks(
                client::next_fid(nf),
                CallOf::Walk { fid: newparent, newfid: nf, names: seq![newname] },
                OpOf::RenameWalk { freshfid: nf },
            ),
            Err(e) => s.fails(nf, Seq::empty(), e),
        },
        OpOf::RenameWalk { freshfid } => renamed(s, nf, freshfid, o),
        OpOf::Readlink => match o {
            Ok(AnswerOf::Link(t)) => s.answers(nf, ReplyOf::Data(vstd::utf8::encode_utf8(t))),
            Ok(_) => s.fails(nf, Seq::empty(), EIO),
            Err(e) => s.fails(nf, Seq::empty(), e),
        },
        OpOf::Statfs => match o {
            Ok(AnswerOf::Stat(st)) => s.answers(nf, ReplyOf::Stat(st)),
            Ok(_) => s.fails(nf, Seq::empty(), EIO),
            Err(e) => s.fails(nf, Seq::empty(), e),
        },
        OpOf::Plain => match step::success(o) {
            Ok(_) => s.answers(nf, ReplyOf::Empty),
            Err(e) => s.fails(nf, Seq::empty(), e),
        },
    }
}

/// How a request goes on when the deferred writes have ended, with the error they met.
pub open spec fn drained(op: DrainOp, err: Option<i32>) -> step::StepView {
    match (op, err) {
        (DrainOp::Release { fid }, Some(e)) => step::failed(seq![fid], e),
        (DrainOp::Release { fid }, None) => StepOf::Finish {
            clunks: seq![fid],
            reply: ReplyOf::Empty,
        },
        (_, Some(e)) => step::failed(Seq::empty(), e),
        (DrainOp::Flush, None) => step::replied(ReplyOf::Empty),
        (DrainOp::Fsync { fid }, None) => StepOf::Call {
            call: CallOf::Fsync { fid },
            op: OpOf::Plain,
        },
    }
}

impl Fuse9p {
    /// A file system that was just mounted through a connected client. `root_qid_path` is the qid path
    /// of the export's root. Reads and writes are cut to the message size that the client and the
    /// server agreed to.
    pub fn new(client: &NineClient, root_qid_path: u64, tuning: Tuning) -> (fs: Self)
        ensures
            fs@ == mounted(client@.msize, client@.root_fid, root_qid_path, tuning),
    {
        let msize: u32 = client.msize();
        let root_fid: u32 = client.root_fid();
        let mut inodes: HashMap<u64, Inode> = HashMap::new();
        inodes.insert(ROOT_INO, Inode { fid: root_fid, lookups: 1 });
        let fs = Fuse9p {
            tuning,
            inodes,
            root_qid_path,
            handles: HashMap::new(),
            next_fh: 1,
            msize,
            root_fid,
        };
        assert(fs@ =~= mounted(msize, root_fid, root_qid_path, tuning));
        fs
    }

    /// What to ask of the kernel for this mount.
    pub fn kernel_wants(&self) -> (w: KernelWants)
        ensures
            w.max_io == tuning::max_io(self@.msize),
            w.capabilities@ == tuning::wanted_capabilities(self@.tuning),
    {
        tuning::kernel_wants(self.msize, &self.tuning)
    }

    pub(crate) fn intern(&self, qid_path: u64) -> (ino: u64)
        ensures
            ino == self@.intern(qid_path),
    {
        attrs::qid_to_ino(qid_path, self.root_qid_path)
    }

    fn fid_of(&self, ino: u64) -> (fid: Option<u32>)
        ensures
            fid == self@.fid_of(ino),
    {
        match self.inodes.get(&ino) {
            Some(i) => Some(i.fid),
            None => None,
        }
    }

    fn handle(&self, fh: u64) -> (h: Option<FileHandle>)
        ensures
            h == (if self@.handles.contains_key(fh) {
                Some(self@.handles[fh])
            } else {
                None
            }),
    {
        match self.handles.get(&fh) {
            Some(h) => Some(*h),
            None => None,
        }
    }

    /// How many writes of an open file may be in flight, or `None` where its writes are not deferred
    /// or it is not open.
    pub fn writeback_depth(&self, fh: u64) -> (depth: Option<usize>)
        ensures
            depth == deferral(self@, fh),
    {
        match self.handle(fh) {
            Some(h) => h.depth,
            None => None,
        }
    }

    pub(crate) fn entry_ttl(&self) -> (ttl: Span)
        ensures
            ttl == self@.tuning.entry_ttl,
    {
        self.tuning.entry_ttl
    }

    /// Registers an opened fid as a new handle.
    fn insert_handle(&mut self, fid: u32, writable: bool) -> (fh: u64)
        ensures
            fh == old(self)@.next_fh,
            final(self)@ == old(self)@.opened(fid, writable),
    {
        let fh: u64 = self.next_fh;
        self.next_fh = fh.wrapping_add(1);
        let depth: Option<usize> = if writable && self.tuning.writeback {
            Some(
                if self.tuning.wb_depth == 0 {
                    1
                } else {
                    self.tuning.wb_depth
                },
            )
        } else {
            None
        };
        self.handles.insert(fh, FileHandle { fid, depth });
        fh
    }

    /// Counts a reference to an inode that `fid` leads to, and returns the fids left over.
    pub(crate) fn refer(&mut self, ino: u64, fid: u32) -> (clunks: Vec<u32>)
        ensures
            final(self)@ == old(self)@.looked_up(ino, fid),
            clunks@ == old(self)@.spare(ino, fid),
    {
        let known: Option<Inode> = match self.inodes.get(&ino) {
            Some(i) => Some(*i),
            None => None,
        };
        match known {
            Some(i) => {
                self.inodes.insert(
                    ino,
                    Inode { fid: i.fid, lookups: i.lookups.saturating_add(1) },
                );
                step::one_fid(fid)
            },
            None => {
                self.inodes.insert(ino, Inode { fid, lookups: 1 });
                let clunks: Vec<u32> = Vec::new();
                assert(clunks@ =~= Seq::<u32>::empty());
                clunks
            },
        }
    }

    /// Looks a name up in a directory.
    pub fn lookup(&self, client: &mut NineClient, parent: u64, name: &[u8]) -> (s: Step)
        ensures
            moved(
                old(client)@,
                self@,
                final(client)@,
                s@,
                lookup_started(
                    self@,
                    old(client)@.next_fid,
                    parent,
                    ninep::text_of(name@),
                ),
            ),
    {
        let fid: u32 = match self.fid_of(parent) {
            Some(fid) => fid,
            None => {
                return step::fail_now(ENOENT);
            },
        };
        let newfid: u32 = client.alloc_fid();
        StepOf::Call {
            call: CallOf::Walk { fid, newfid, names: step::one_name(ninep::name_text(name)) },
            op: OpOf::LookupWalk { newfid },
        }
    }

    /// The kernel gives back references to an inode. Returns the fid to drop, if any.
    pub fn forget(&mut self, ino: u64, nlookup: u64) -> (clunks: Vec<u32>)
        ensures
            (final(self)@, clunks@) == forgotten(old(self)@, ino, nlookup),
    {
        let mut clunks: Vec<u32> = Vec::new();
        if ino != ROOT_INO {
            let known: Option<Inode> = match self.inodes.get(&ino) {
                Some(i) => Some(*i),
                None => None,
            };
            if let Some(i) = known {
                let lookups: u64 = i.lookups.saturating_sub(nlookup);
                if lookups == 0 {
                    self.inodes.remove(&ino);
                    clunks.push(i.fid);
                } else {
                    self.inodes.insert(ino, Inode { fid: i.fid, lookups });
                }
            }
        }
        assert(clunks@ =~= forgotten(old(self)@, ino, nlookup).1);
        assert(self@ =~= forgotten(old(self)@, ino, nlookup).0);
        clunks
    }

    pub fn getattr(&self, ino: u64) -> (s: Step)
        ensures
            s@ == getattr_started(self@, ino),
    {
        match self.fid_of(ino) {
            Some(fid) => StepOf::Call { call: CallOf::Getattr { fid }, op: OpOf::Attr { ino } },
            None => step::fail_now(ENOENT),
        }
    }

    pub fn setattr(&self, ino: u64, changes: &Changes) -> (s: Step)
        ensures
            s@ == setattr_started(self@, ino, *changes),
    {
        match self.fid_of(ino) {
            Some(fid) => StepOf::Call {
                call: attrs::to_setattr(fid, changes),
                op: OpOf::Setattr { ino, fid },
            },
            None => step::fail_now(ENOENT),
        }
    }

    fn clone_to_open(
        &self,
        client: &mut NineClient,
        ino: u64,
        flags: u32,
        writable: bool,
    ) -> (s: Step)
        ensures
            moved(
                old(client)@,
                self@,
                final(client)@,
                s@,
                cloned_to_open(self@, old(client)@.next_fid, ino, flags, writable),
            ),
    {
        let fid: u32 = match self.fid_of(ino) {
            Some(fid) => fid,
            None => {
                return step::fail_now(ENOENT);
            },
        };
        let newfid: u32 = client.alloc_fid();
        StepOf::Call {
            call: CallOf::Walk { fid, newfid, names: step::no_names() },
            op: OpOf::OpenClone { newfid, flags, writable },
        }
    }

    pub fn open(&self, client: &mut NineClient, ino: u64, flags: i32) -> (s: Step)
        ensures
            moved(
                old(client)@,
                self@,
                final(client)@,
                s@,
                open_started(self@, old(client)@.next_fid, ino, flags),
            ),
    {
        let mut oflags: u32 = (flags as u32) & !O_CLOEXEC;
        if self.tuning.writeback && oflags & O_ACCMODE == O_WRONLY {
            oflags = (oflags & !O_ACCMODE) | O_RDWR;
        }
        let writable: bool = oflags & O_ACCMODE != O_RDONLY;
        self.clone_to_open(client, ino, oflags, writable)
    }

    pub fn opendir(&self, client: &mut NineClient, ino: u64) -> (s: Step)
        ensures
            moved(
                old(client)@,
                self@,
                final(client)@,
                s@,
                opendir_started(self@, old(client)@.next_fid, ino),
            ),
    {
        self.clone_to_open(client, ino, O_RDONLY, false)
    }

    fn room(&self) -> (n: u32)
        ensures
            n == io_room(self@.msize),
    {
        self.msize.saturating_sub(IO_HEADROOM)
    }

    pub fn read(&self, fh: u64, offset: i64, size: u32) -> (s: Step)
        ensures
            s@ == read_started(self@, fh, offset, size),
    {
        match self.handle(fh) {
            Some(h) => {
                let room: u32 = self.room();
                let count: u32 = if size < room {
                    size
                } else {
                    room
                };
                StepOf::Call {
                    call: CallOf::Read { fid: h.fid, offset: offset as u64, count },
                    op: OpOf::Read,
                }
            },
            None => step::fail_now(EBADF),
        }
    }

    pub fn write(&self, fh: u64, offset: i64, data: Vec<u8>) -> (s: Step)
        ensures
            s@ == write_started(self@, fh, offset, data@),
    {
        match self.handle(fh) {
            Some(h) => {
                let len: u32 = data.len() as u32;
                let job: WriteJob = JobOf::new(h.fid, offset as u64, data, self.room() as usize);
                if h.depth.is_some() {
                    StepOf::Defer { fh, job, len }
                } else {
                    continue_write(job, len)
                }
            },
            None => step::fail_now(EBADF),
        }
    }

    pub fn release(&mut self, fh: u64) -> (s: Step)
        ensures
            (final(self)@, s@) == release_started(old(self)@, fh),
    {
        let h: FileHandle = match self.handle(fh) {
            Some(h) => h,
            None => {
                return step::reply_now(ReplyOf::Empty);
            },
        };
        self.handles.remove(&fh);
        if h.depth.is_some() {
            StepOf::Drain { fh, op: DrainOp::Release { fid: h.fid } }
        } else {
            StepOf::Finish { clunks: step::one_fid(h.fid), reply: ReplyOf::Empty }
        }
    }

    pub fn releasedir(&mut self, fh: u64) -> (s: Step)
        ensures
            (final(self)@, s@) == releasedir_started(old(self)@, fh),
    {
        let h: FileHandle = match self.handle(fh) {
            Some(h) => h,
            None => {
                return step::reply_now(ReplyOf::Empty);
            },
        };
        self.handles.remove(&fh);
        StepOf::Finish { clunks: step::one_fid(h.fid), reply: ReplyOf::Empty }
    }

    pub fn readdir(&self, fh: u64, offset: i64) -> (s: Step)
        ensures
            s@ == readdir_started(self@, fh, offset),
    {
        match self.handle(fh) {
            Some(h) => StepOf::Call {
                call: CallOf::Readdir { fid: h.fid, offset: offset as u64, count: READDIR_COUNT },
                op: OpOf::Readdir,
            },
            None => step::fail_now(EBADF),
        }
    }

    /// Like `readdir`, but fetches the attributes of each entry too.
    pub fn readdirplus(&self, ino: u64, fh: u64, offset: i64) -> (s: Step)
        ensures
            s@ == readdirplus_started(self@, ino, fh, offset),
    {
        let h: FileHandle = match self.handle(fh) {
            Some(h) => h,
            None => {
                return step::fail_now(EBADF);
            },
        };
        match self.fid_of(ino) {
            Some(parent) => StepOf::Call {
                call: CallOf::Readdir { fid: h.fid, offset: offset as u64, count: READDIR_COUNT },
                op: OpOf::ReaddirPlus { parent },
            },
            None => step::fail_now(ENOENT),
        }
    }

    pub fn create(
        &self,
        client: &mut NineClient,
        parent: u64,
        name: &[u8],
        mode: u32,
        flags: i32,
        gid: u32,
    ) -> (s: Step)
        ensures
            moved(
                old(client)@,
                self@,
                final(client)@,
                s@,
                create_started(
                    self@,
                    old(client)@.next_fid,
                    parent,
                    ninep::text_of(name@),
                    mode,
                    flags,
                    gid,
                ),
            ),
    {
        let fid: u32 = match self.fid_of(parent) {
            Some(fid) => fid,
            None => {
                return step::fail_now(ENOENT);
            },
        };
        let openfid: u32 = client.alloc_fid();
        let basefid: u32 = client.alloc_fid();
        StepOf::Call {
            call: CallOf::Walk { fid, newfid: openfid, names: step::no_names() },
            op: OpOf::CreateClone {
                parent: fid,
                openfid,
                basefid,
                name: ninep::name_text(name),
                flags: (flags as u32) & !O_CLOEXEC,
                mode: mode & PERM_MASK,
                gid,
            },
        }
    }

    pub fn mkdir(
        &self,
        client: &mut NineClient,
        parent: u64,
        name: &[u8],
        mode: u32,
        gid: u32,
    ) -> (s: Step)
        ensures
            moved(
                old(client)@,
                self@,
                final(client)@,
                s@,
                mkdir_started(
                    self@,
                    old(client)@.next_fid,
                    parent,
                    ninep::text_of(name@),
                    mode,
                    gid,
                ),
            ),
    {
        let fid: u32 = match self.fid_of(parent) {
            Some(fid) => fid,
            None => {
                return step::fail_now(ENOENT);
            },
        };
        let basefid: u32 = client.alloc_fid();
        let name: String = ninep::name_text(name);
        StepOf::Call {
            call: CallOf::Mkdir { dfid: fid, name: name.clone(), mode: mode & PERM_MASK, gid },
            op: OpOf::Make { parent: fid, basefid, name },
        }
    }

    pub fn symlink(
        &self,
        client: &mut NineClient,
        parent: u64,
        name: &[u8],
        target: &[u8],
        gid: u32,
    ) -> (s: Step)
        ensures
            moved(
                old(client)@,
                self@,
                final(client)@,
                s@,
                symlink_started(
                    self@,
                    old(client)@.next_fid,
                    parent,
                    ninep::text_of(name@),
                    ninep::text_of(target@),
                    gid,
                ),
            ),
    {
        let fid: u32 = match self.fid_of(parent) {
            Some(fid) => fid,
            None => {
                return step::fail_now(ENOENT);
            },
        };
        let basefid: u32 = client.alloc_fid();
        let name: String = ninep::name_text(name);
        let target: String = ninep::name_text(target);
        StepOf::Call {
            call: CallOf::Symlink { dfid: fid, name: name.clone(), target, gid },
            op: OpOf::Make { parent: fid, basefid, name },
        }
    }

    fn do_unlink(&self, parent: u64, name: &[u8], flags: u32) -> (s: Step)
        ensures
            s@ == unlink_started(self@, parent, ninep::text_of(name@), flags),
    {
        match self.fid_of(parent) {
            Some(fid) => StepOf::Call {
                call: CallOf::Unlinkat { dfid: fid, name: ninep::name_text(name), flags },
                op: OpOf::Plain,
            },
            None => step::fail_now(ENOENT),
        }
    }

    pub fn unlink(&self, parent: u64, name: &[u8]) -> (s: Step)
        ensures
            s@ == removal_started(self@, parent, ninep::text_of(name@), false),
    {
        self.do_unlink(parent, name, 0)
    }

    pub fn rmdir(&self, parent: u64, name: &[u8]) -> (s: Step)
        ensures
            s@ == removal_started(self@, parent, ninep::text_of(name@), true),
    {
        self.do_unlink(parent, name, AT_REMOVEDIR)
    }

    pub fn flush(&self, fh: u64) -> (s: Step)
        ensures
            s@ == flush_started(self@, fh),
    {
        match self.writeback_depth(fh) {
            Some(_) => StepOf::Drain { fh, op: DrainOp::Flush },
            None => step::reply_now(ReplyOf::Empty),
        }
    }

    pub fn fsync(&self, fh: u64) -> (s: Step)
        ensures
            s@ == fsync_started(self@, fh),
    {
        match self.handle(fh) {
            Some(h) => if h.depth.is_some() {
                StepOf::Drain { fh, op: DrainOp::Fsync { fid: h.fid } }
            } else {
                StepOf::Call { call: CallOf::Fsync { fid: h.fid }, op: OpOf::Plain }
            },
            None => step::reply_now(ReplyOf::Empty),
        }
    }

    pub fn rename(
        &self,
        parent: u64,
        name: &[u8],
        newparent: u64,
        newname: &[u8],
    ) -> (s: Step)
        ensures
            s@ == rename_started(
                self@,
                parent,
                ninep::text_of(name@),
                newparent,
                ninep::text_of(newname@),
            ),
    {
        match (self.fid_of(parent), self.fid_of(newparent)) {
            (Some(olddfid), Some(newdfid)) => {
                let oldname: String = ninep::name_text(name);
                let newname: String = ninep::name_text(newname);
                StepOf::Call {
                    call: CallOf::Renameat { olddfid, oldname, newdfid, newname: newname.clone() },
                    op: OpOf::Rename { newparent: newdfid, newname },
                }
            },
            _ => step::fail_now(ENOENT),
        }
    }

    pub fn readlink(&self, ino: u64) -> (s: Step)
        ensures
            s@ == readlink_started(self@, ino),
    {
        match self.fid_of(ino) {
            Some(fid) => StepOf::Call { call: CallOf::Readlink { fid }, op: OpOf::Readlink },
            None => step::fail_now(ENOENT),
        }
    }

    pub fn statfs(&self, ino: u64) -> (s: Step)
        ensures
            s@ == statfs_started(self@, ino),
    {
        let fid: u32 = match self.fid_of(ino) {
            Some(fid) => fid,
            None => self.root_fid,
        };
        StepOf::Call { call: CallOf::Statfs { fid }, op: OpOf::Statfs }
    }

    /// Goes on when the deferred writes of a handle have ended, with the error they met.
    pub fn drained(&self, op: DrainOp, err: Option<i32>) -> (s: Step)
        ensures
            s@ == drained(op, err),
    {
        match op {
            DrainOp::Release { fid } => match err {
                Some(e) => step::fail_dropping(fid, e),
                None => StepOf::Finish { clunks: step::one_fid(fid), reply: ReplyOf::Empty },
            },
            DrainOp::Flush => match err {
                Some(e) => step::fail_now(e),
                None => step::reply_now(ReplyOf::Empty),
            },
            DrainOp::Fsync { fid } => match err {
                Some(e) => step::fail_now(e),
                None => StepOf::Call { call: CallOf::Fsync { fid }, op: OpOf::Plain },
            },
        }
    }

    fn fail_lookup(&self, newfid: u32, e: i32) -> (s: Step)
        ensures
            s@ == lookup_failed(self@, 0, newfid, e).step,
    {
        if e == ENOENT {
            if let Some(ttl) = self.tuning.negative_ttl {
                return StepOf::Finish {
                    clunks: step::one_fid(newfid),
                    reply: ReplyOf::Entry { ttl, attr: attrs::negative_attr() },
                };
            }
        }
        step::fail_dropping(newfid, e)
    }

    fn found(&mut self, newfid: u32, a: &Attr) -> (s: Step)
        ensures
            final(self)@ == lookup_found(old(self)@, 0, newfid, *a).fs,
            s@ == lookup_found(old(self)@, 0, newfid, *a).step,
    {
        let ino: u64 = self.intern(a.qid.path);
        let clunks: Vec<u32> = self.refer(ino, newfid);
        StepOf::Finish {
            clunks,
            reply: ReplyOf::Entry {
                ttl: self.tuning.entry_ttl,
                attr: attrs::to_fileattr(ino, a),
            },
        }
    }

    fn make(&mut self, basefid: u32, a: &Attr) -> (attr: FileAttr)
        ensures
            final(self)@ == old(self)@.made(old(self)@.intern(a.qid.path), basefid),
            attr == attrs::file_attr(old(self)@.intern(a.qid.path), *a),
    {
        let ino: u64 = self.intern(a.qid.path);
        self.inodes.insert(ino, Inode { fid: basefid, lookups: 1 });
        attrs::to_fileattr(ino, a)
    }

    fn finish_rename(&mut self, freshfid: u32, o: Result<Answer, i32>) -> (s: Step)
        ensures
            final(self)@ == renamed(old(self)@, 0, freshfid, calls::outcome_view(o)).fs,
            s@ == renamed(old(self)@, 0, freshfid, calls::outcome_view(o)).step,
    {
        if let Ok(path) = step::walk_answer(o) {
            let ino: u64 = self.intern(path);
            let known: Option<Inode> = match self.inodes.get(&ino) {
                Some(i) => Some(*i),
                None => None,
            };
            if let Some(i) = known {
                self.inodes.insert(ino, Inode { fid: freshfid, lookups: i.lookups });
                return StepOf::Finish { clunks: step::one_fid(i.fid), reply: ReplyOf::Empty };
            }
        }
        StepOf::Finish { clunks: step::one_fid(freshfid), reply: ReplyOf::Empty }
    }

    /// The entries of a directory, for the kernel.
    fn list(&self, entries: Vec<DirEntry>) -> (items: Vec<DirItem>)
        ensures
            step::item_views(items@) == dir_items(self@, ninep::entry_views(entries@)),
    {
        let mut items: Vec<DirItem> = Vec::new();
        let mut i: usize = 0;
        while i < entries.len()
            invariant
                i <= entries@.len(),
                items@.len() == i,
                forall|j: int|
                    0 <= j < i ==> (#[trigger] items@[j])@ == dir_item(self@, entries@[j]@),
            decreases entries.len() - i,
        {
            let e: &DirEntry = &entries[i];
            items.push(
                DirItemOf {
                    ino: self.intern(e.qid.path),
                    offset: e.offset as i64,
                    kind: attrs::kind_from_qid(e.qid.typ),
                    name: e.name.clone(),
                },
            );
            i = i + 1;
        }
        assert(step::item_views(items@) =~= dir_items(self@, ninep::entry_views(entries@)));
        items
    }

    /// Goes on with a waiting request when its call has come out.
    pub fn resume(&mut self, client: &mut NineClient, op: Op, o: Result<Answer, i32>) -> (s: Step)
        ensures
            moved(
                old(client)@,
                final(self)@,
                final(client)@,
                s@,
                resumed(old(self)@, old(client)@.next_fid, op@, calls::outcome_view(o)),
            ),
    {
        match op {
            OpOf::LookupWalk { newfid } => match step::succeeded(o) {
                Ok(_) => StepOf::Call {
                    call: CallOf::Getattr { fid: newfid },
                    op: OpOf::LookupAttr { newfid },
                },
                Err(e) => self.fail_lookup(newfid, e),
            },
            OpOf::LookupAttr { newfid } => match step::attr_answer(o) {
                Ok(a) => self.found(newfid, &a),
                Err(e) => self.fail_lookup(newfid, e),
            },
            OpOf::Attr { ino } => match step::attr_answer(o) {
                Ok(a) => step::reply_now(
                    ReplyOf::Attr {
                        ttl: self.tuning.attr_ttl,
                        attr: attrs::to_fileattr(ino, &a),
                    },
                ),
                Err(e) => step::fail_now(e),
            },
            OpOf::Setattr { ino, fid } => match step::succeeded(o) {
                Ok(_) => StepOf::Call { call: CallOf::Getattr { fid }, op: OpOf::Attr { ino } },
                Err(e) => step::fail_now(e),
            },
            OpOf::OpenClone { newfid, flags, writable } => match step::succeeded(o) {
                Ok(_) => StepOf::Call {
                    call: CallOf::Lopen { fid: newfid, flags },
                    op: OpOf::Open { newfid, writable },
                },
                Err(e) => step::fail_dropping(newfid, e),
            },
            OpOf::Open { newfid, writable } => match step::succeeded(o) {
                Ok(_) => {
                    let fh: u64 = self.insert_handle(newfid, writable);
                    step::reply_now(ReplyOf::Opened { fh })
                },
                Err(e) => step::fail_dropping(newfid, e),
            },
            OpOf::Read => match o {
                Ok(AnswerOf::Data(d)) => step::reply_now(ReplyOf::Data(d)),
                Ok(_) => step::fail_now(EIO),
                Err(e) => step::fail_now(e),
            },
            OpOf::Write { job, len } => match job.advance(o) {
                Ok(next) => continue_write(next, len),
                Err(e) => step::fail_now(e),
            },
            OpOf::Readdir => match step::entries_answer(o) {
                Ok(entries) => step::reply_now(ReplyOf::List(self.list(entries))),
                Err(e) => step::fail_now(e),
            },
            OpOf::ReaddirPlus { parent } => match step::entries_answer(o) {
                Ok(entries) => StepOf::Prefetch { parent, wanted: want(client, entries) },
                Err(e) => step::fail_now(e),
            },
            OpOf::CreateClone { parent, openfid, basefid, name, flags, mode, gid } =>
                match step::succeeded(o) {
                    Ok(_) => StepOf::Call {
                        call: CallOf::Lcreate {
                            dfid: openfid,
                            name: name.clone(),
                            flags,
                            mode,
                            gid,
                        },
                        op: OpOf::Create { parent, openfid, basefid, name },
                    },
                    Err(e) => fail_create(openfid, basefid, e),
                },
            OpOf::Create { parent, openfid, basefid, name } => match step::succeeded(o) {
                Ok(_) => StepOf::Call {
                    call: CallOf::Walk {
                        fid: parent,
                        newfid: basefid,
                        names: step::one_name(name),
                    },
                    op: OpOf::CreateWalk { openfid, basefid },
                },
                Err(e) => fail_create(openfid, basefid, e),
            },
            OpOf::CreateWalk { openfid, basefid } => match step::succeeded(o) {
                Ok(_) => StepOf::Call {
                    call: CallOf::Getattr { fid: basefid },
                    op: OpOf::CreateAttr { openfid, basefid },
                },
                Err(e) => fail_create(openfid, basefid, e),
            },
            OpOf::CreateAttr { openfid, basefid } => match step::attr_answer(o) {
                Ok(a) => {
                    let attr: FileAttr = self.make(basefid, &a);
                    let fh: u64 = self.insert_handle(openfid, true);
                    step::reply_now(ReplyOf::Created { ttl: self.tuning.entry_ttl, attr, fh })
                },
                Err(e) => fail_create(openfid, basefid, e),
            },
            OpOf::Make { parent, basefid, name } => match step::succeeded(o) {
                Ok(_) => StepOf::Call {
                    call: CallOf::Walk {
                        fid: parent,
                        newfid: basefid,
                        names: step::one_name(name),
                    },
                    op: OpOf::MakeWalk { basefid },
                },
                Err(e) => step::fail_dropping(basefid, e),
            },
            OpOf::MakeWalk { basefid } => match step::succeeded(o) {
                Ok(_) => StepOf::Call {
                    call: CallOf::Getattr { fid: basefid },
                    op: OpOf::MakeAttr { basefid },
                },
                Err(e) => step::fail_dropping(basefid, e),
            },
            OpOf::MakeAttr { basefid } => match step::attr_answer(o) {
                Ok(a) => {
                    let attr: FileAttr = self.make(basefid, &a);
                    step::reply_now(ReplyOf::Entry { ttl: self.tuning.entry_ttl, attr })
                },
                Err(e) => step::fail_dropping(basefid, e),
            },
            OpOf::Rename { newparent, newname } => match step::succeeded(o) {
                Ok(_) => {
                    let freshfid: u32 = client.alloc_fid();
                    StepOf::Call {
                        call: CallOf::Walk {
                            fid: newparent,
                            newfid: freshfid,
                            names: step::one_name(newname),
                        },
                        op: OpOf::RenameWalk { freshfid },
                    }
                },
                Err(e) => step::fail_now(e),
            },
            OpOf::RenameWalk { freshfid } => self.finish_rename(freshfid, o),
            OpOf::Readlink => match o {
                Ok(AnswerOf::Link(t)) => step::reply_now(
                    ReplyOf::Data(vstd::slice::slice_to_vec(t.as_str().as_bytes())),
                ),
                Ok(_) => step::fail_now(EIO),
                Err(e) => step::fail_now(e),
            },
            OpOf::Statfs => match o {
                Ok(AnswerOf::Stat(st)) => step::reply_now(ReplyOf::Stat(st)),
                Ok(_) => step::fail_now(EIO),
                Err(e) => step::fail_now(e),
            },
            OpOf::Plain => match step::succeeded(o) {
                Ok(_) => step::reply_now(ReplyOf::Empty),
                Err(e) => step::fail_now(e),
            },
        }
    }
}

/// A create that failed drops both of its fids.
fn fail_create(openfid: u32, basefid: u32, e: i32) -> (s: Step)
    ensures
        s@ == step::failed(seq![openfid, basefid], e),
{
    let mut clunks: Vec<u32> = Vec::new();
    clunks.push(openfid);
    clunks.push(basefid);
    assert(clunks@ =~= seq![openfid, basefid]);
    StepOf::Finish { clunks, reply: ReplyOf::Error(e) }
}

/// Sends the next message of a write, or replies.
fn continue_write(job: WriteJob, len: u32) -> (s: Step)
    ensures
        s@ == write_continued(job@, len),
{
    match job.next() {
        Some(call) => StepOf::Call { call, op: OpOf::Write { job, len } },
        None => step::reply_now(ReplyOf::Written(len)),
    }
}

/// Gives each entry a fresh fid.
fn want(client: &mut NineClient, entries: Vec<DirEntry>) -> (wanted: Vec<Wanted>)
    ensures
        step::wanted_views(wanted@) == wanted_for(
            old(client)@.next_fid,
            ninep::entry_views(entries@),
        ),
        final(client)@ == (client::ClientView {
            next_fid: nth_fid(old(client)@.next_fid, entries@.len()),
            ..old(client)@
        }),
{
    let ghost nf = client@.next_fid;
    let ghost before = client@;
    let mut wanted: Vec<Wanted> = Vec::new();
    let mut i: usize = 0;
    let n: usize = entries.len();
    while i < n
        invariant
            i <= n,
            n == entries@.len(),
            wanted@.len() == i,
            client@ == (client::ClientView { next_fid: nth_fid(nf, i as nat), ..before }),
            forall|j: int|
                #![trigger wanted@[j]]
                0 <= j < i ==> wanted@[j]@.entry == entries@[j]@ && wanted@[j]@.fid == nth_fid(
                    nf,
                    j as nat,
                ),
        decreases n - i,
    {
        let fid: u32 = client.alloc_fid();
        let entry: DirEntry = DirEntry {
            qid: entries[i].qid,
            offset: entries[i].offset,
            typ: entries[i].typ,
            name: entries[i].name.clone(),
        };
        wanted.push(WantedOf { entry, fid });
        i = i + 1;
    }
    assert(step::wanted_views(wanted@) =~= wanted_for(nf, ninep::entry_views(entries@)));
    wanted
}

} // verus!
