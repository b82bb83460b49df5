//! What serving a kernel request consists of: calls to the server, waits, and a reply.

use crate::attrs::{FileAttr, FileType};
use crate::calls;
use crate::calls::{Answer, AnswerOf, Call, StatFs, EIO};
use crate::ninep;
use crate::ninep::{Attr, DirEntry};
use crate::tuning::Span;
use crate::writeback;
use crate::writeback::WriteJob;
use vstd::prelude::*;

verus! {

/// A kernel request that waits for the server's answer to a call. `S` is the type of a name, `J` of
/// a write under way.
#[derive(Debug, PartialEq, Eq)]
pub enum OpOf<S, J> {
    /// A lookup: first walk to the name, then get its attributes.
    LookupWalk { newfid: u32 },
    LookupAttr { newfid: u32 },
    /// The attributes of an inode, to be told the kernel.
    Attr { ino: u64 },
    /// A change of attributes, of which the kernel is told the outcome.
    Setattr { ino: u64, fid: u32 },
    /// An open: first clone the inode's fid, then open the clone.
    OpenClone { newfid: u32, flags: u32, writable: bool },
    Open { newfid: u32, writable: bool },
    Read,
    /// A write that is not deferred.
    Write { job: J, len: u32 },
    Readdir,
    /// A directory read that also fetches attributes, walking from the directory's fid `parent`.
    ReaddirPlus { parent: u32 },
    /// A create: clone the parent's fid into `openfid` and create the file through it, then walk
    /// `basefid` to the new file and get its attributes.
    CreateClone {
        parent: u32,
        openfid: u32,
        basefid: u32,
        name: S,
        flags: u32,
        mode: u32,
        gid: u32,
    },
    Create { parent: u32, openfid: u32, basefid: u32, name: S },
    CreateWalk { openfid: u32, basefid: u32 },
    CreateAttr { openfid: u32, basefid: u32 },
    /// A mkdir or a symlink: make it, then walk `basefid` to it and get its attributes.
    Make { parent: u32, basefid: u32, name: S },
    MakeWalk { basefid: u32 },
    MakeAttr { basefid: u32 },
    /// A rename: move the file, then walk to its new name for a fid that is not stale.
    Rename { newparent: u32, newname: S },
    RenameWalk { freshfid: u32 },
    Readlink,
    Statfs,
    /// A request that only succeeds or fails.
    Plain,
}

pub type Op = OpOf<String, WriteJob>;

pub type OpView = OpOf<Seq<char>, writeback::JobView>;

impl View for OpOf<String, WriteJob> {
    type V = OpView;

    open spec fn view(&self) -> OpView {
        match *self {
            OpOf::LookupWalk { newfid } => OpOf::LookupWalk { newfid },
            OpOf::LookupAttr { newfid } => OpOf::LookupAttr { newfid },
            OpOf::Attr { ino } => OpOf::Attr { ino },
            OpOf::Setattr { ino, fid } => OpOf::Setattr { ino, fid },
            OpOf::OpenClone { newfid, flags, writable } => OpOf::OpenClone {
                newfid,
                flags,
                writable,
            },
            OpOf::Open { newfid, writable } => OpOf::Open { newfid, writable },
            OpOf::Read => OpOf::Read,
            OpOf::Write { job, len } => OpOf::Write { job: job@, len },
            OpOf::Readdir => OpOf::Readdir,
            OpOf::ReaddirPlus { parent } => OpOf::ReaddirPlus { parent },
            OpOf::CreateClone { parent, openfid, basefid, name, flags, mode, gid } =>
                OpOf::CreateClone { parent, openfid, basefid, name: name@, flags, mode, gid },
            OpOf::Create { parent, openfid, basefid, name } => OpOf::Create {
                parent,
                openfid,
                basefid,
                name: name@,
            },
            OpOf::CreateWalk { openfid, basefid } => OpOf::CreateWalk { openfid, basefid },
            OpOf::CreateAttr { openfid, basefid } => OpOf::CreateAttr { openfid, basefid },
            OpOf::Make { parent, basefid, name } => OpOf::Make { parent, basefid, name: name@ },
            OpOf::MakeWalk { basefid } => OpOf::MakeWalk { basefid },
            OpOf::MakeAttr { basefid } => OpOf::MakeAttr { basefid },
            OpOf::Rename { newparent, newname } => OpOf::Rename { newparent, newname: newname@ },
            OpOf::RenameWalk { freshfid } => OpOf::RenameWalk { freshfid },
            OpOf::Readlink => OpOf::Readlink,
            OpOf::Statfs => OpOf::Statfs,
            OpOf::Plain => OpOf::Plain,
        }
    }
}

/// A kernel request that waits until the deferred writes of an open file have ended.
#[derive(Clone, Copy, Debug, PartialEq, Eq)]
pub enum DrainOp {
    /// The file is closed: `fid` is dropped afterwards.
    Release { fid: u32 },
    Flush,
    /// The server is asked to make the writes to `fid` durable afterwards.
    Fsync { fid: u32 },
}

/// A directory entry for the kernel. `S` is the type of a name.
#[derive(Debug, PartialEq, Eq)]
pub struct DirItemOf<S> {
    pub ino: u64,
    /// Where to go on reading after this entry.
    pub offset: i64,
    pub kind: FileType,
    pub name: S,
}

pub type DirItem = DirItemOf<String>;

pub type DirItemView = DirItemOf<Seq<char>>;

impl View for DirItemOf<String> {
    type V = DirItemView;

    open spec fn view(&self) -> DirItemView {
        DirItemOf { ino: self.ino, offset: self.offset, kind: self.kind, name: self.name@ }
    }
}

/// The entries in a list, by their views.
pub open spec fn item_views(items: Seq<DirItem>) -> Seq<DirItemView> {
    items.map_values(|i: DirItem| i@)
}

/// A reply to the kernel. `B` is the type of a run of bytes, `L` of a list of directory entries.
#[derive(Debug, PartialEq, Eq)]
pub enum ReplyOf<B, L> {
    Error(i32),
    Empty,
    /// A name's inode, and how long the kernel may trust it. Inode 0 says that there is none.
    Entry { ttl: Span, attr: FileAttr },
    Attr { ttl: Span, attr: FileAttr },
    Opened { fh: u64 },
    Created { ttl: Span, attr: FileAttr, fh: u64 },
    Data(B),
    Written(u32),
    /// Directory entries, to be handed over in order as long as they fit.
    List(L),
    Stat(StatFs),
}

pub type Reply = ReplyOf<Vec<u8>, Vec<DirItem>>;

pub type ReplyView = ReplyOf<Seq<u8>, Seq<DirItemView>>;

impl View for ReplyOf<Vec<u8>, Vec<DirItem>> {
    type V = ReplyView;

    open spec fn view(&self) -> ReplyView {
        match *self {
            ReplyOf::Error(e) => ReplyOf::Error(e),
            ReplyOf::Empty => ReplyOf::Empty,
            ReplyOf::Entry { ttl, attr } => ReplyOf::Entry { ttl, attr },
            ReplyOf::Attr { ttl, attr } => ReplyOf::Attr { ttl, attr },
            ReplyOf::Opened { fh } => ReplyOf::Opened { fh },
            ReplyOf::Created { ttl, attr, fh } => ReplyOf::Created { ttl, attr, fh },
            ReplyOf::Data(b) => ReplyOf::Data(b@),
            ReplyOf::Written(n) => ReplyOf::Written(n),
            ReplyOf::List(l) => ReplyOf::List(item_views(l@)),
            ReplyOf::Stat(s) => ReplyOf::Stat(s),
        }
    }
}

/// A directory entry whose attributes are to be fetched through `fid`. `E` is the type of an entry.
#[derive(Debug, PartialEq, Eq)]
pub struct WantedOf<E> {
    pub entry: E,
    pub fid: u32,
}

pub type Wanted = WantedOf<DirEntry>;

pub type WantedView = WantedOf<ninep::DirEntryView>;

impl View for WantedOf<DirEntry> {
    type V = WantedView;

    open spec fn view(&self) -> WantedView {
        WantedOf { entry: self.entry@, fid: self.fid }
    }
}

pub open spec fn wanted_views(w: Seq<Wanted>) -> Seq<WantedView> {
    w.map_values(|x: Wanted| x@)
}

/// What to do next for a kernel request. `C` is the type of a call, `O` of a waiting request, `J` of
/// a write, `P` of a list of entries to fetch, `F` of a list of fids, `R` of a reply.
#[derive(Debug, PartialEq, Eq)]
pub enum StepOf<C, O, J, P, F, R> {
    /// Make the call, and go on with its outcome.
    Call { call: C, op: O },
    /// Wait for the deferred writes of the handle, and go on with the error they met.
    Drain { fh: u64, op: DrainOp },
    /// Wait for a free place in the handle's queue, leave the write to run in the background, and
    /// reply that `len` bytes were written.
    Defer { fh: u64, job: J, len: u32 },
    /// Fetch the attributes of the entries, walking from `parent`, and go on with what was fetched.
    Prefetch { parent: u32, wanted: P },
    /// Drop the fids in order, whatever comes of it, and reply.
    Finish { clunks: F, reply: R },
}

pub type Step = StepOf<Call, Op, WriteJob, Vec<Wanted>, Vec<u32>, Reply>;

pub type StepView = StepOf<
    calls::CallView,
    OpView,
    writeback::JobView,
    Seq<WantedView>,
    Seq<u32>,
    ReplyView,
>;

impl View for StepOf<Call, Op, WriteJob, Vec<Wanted>, Vec<u32>, Reply> {
    type V = StepView;

    open spec fn view(&self) -> StepView {
        match *self {
            StepOf::Call { call, op } => StepOf::Call { call: call@, op: op@ },
            StepOf::Drain { fh, op } => StepOf::Drain { fh, op },
            StepOf::Defer { fh, job, len } => StepOf::Defer { fh, job: job@, len },
            StepOf::Prefetch { parent, wanted } => StepOf::Prefetch {
                parent,
                wanted: wanted_views(wanted@),
            },
            StepOf::Finish { clunks, reply } => StepOf::Finish { clunks: clunks@, reply: reply@ },
        }
    }
}

/// A reply, with nothing to drop.
pub open spec fn replied(reply: ReplyView) -> StepView {
    StepOf::Finish { clunks: Seq::empty(), reply }
}

/// An error reply, after the fids in `clunks` are dropped.
pub open spec fn failed(clunks: Seq<u32>, e: i32) -> StepView {
    StepOf::Finish { clunks, reply: ReplyOf::Error(e) }
}

pub fn reply_now(reply: Reply) -> (s: Step)
    ensures
        s@ == replied(reply@),
{
    let clunks: Vec<u32> = Vec::new();
    assert(clunks@ =~= Seq::<u32>::empty());
    StepOf::Finish { clunks, reply }
}

/// An error reply, with nothing to drop.
pub fn fail_now(e: i32) -> (s: Step)
    ensures
        s@ == failed(Seq::empty(), e),
{
    reply_now(ReplyOf::Error(e))
}

/// An error reply, after `fid` is dropped.
pub fn fail_dropping(fid: u32, e: i32) -> (s: Step)
    ensures
        s@ == failed(seq![fid], e),
{
    StepOf::Finish { clunks: one_fid(fid), reply: ReplyOf::Error(e) }
}

pub fn one_fid(fid: u32) -> (v: Vec<u32>)
    ensures
        v@ == seq![fid],
{
    let mut v: Vec<u32> = Vec::new();
    v.push(fid);
    assert(v@ =~= seq![fid]);
    v
}

/// A list of one name.
pub fn one_name(name: String) -> (v: Vec<String>)
    ensures
        calls::name_views(v@) == seq![name@],
{
    let mut v: Vec<String> = Vec::new();
    v.push(name);
    assert(calls::name_views(v@) =~= seq![name@]);
    v
}

/// A list of no names.
pub fn no_names() -> (v: Vec<String>)
    ensures
        calls::name_views(v@) == Seq::<Seq<char>>::empty(),
{
    let v: Vec<String> = Vec::new();
    assert(calls::name_views(v@) =~= Seq::<Seq<char>>::empty());
    v
}

/// Whether a call succeeded, when what it answered does not matter.
pub open spec fn success(o: calls::Outcome) -> Result<(), i32> {
    match o {
        Ok(_) => Ok(()),
        Err(e) => Err(e),
    }
}

pub fn succeeded(o: Result<Answer, i32>) -> (r: Result<(), i32>)
    ensures
        r == success(calls::outcome_view(o)),
{
    match o {
        Ok(_) => Ok(()),
        Err(e) => Err(e),
    }
}

/// The attributes that a getattr answered.
pub open spec fn attr_of(o: calls::Outcome) -> Result<Attr, i32> {
    match o {
        Ok(AnswerOf::Attr(a)) => Ok(a),
        Ok(_) => Err(EIO),
        Err(e) => Err(e),
    }
}

pub fn attr_answer(o: Result<Answer, i32>) -> (r: Result<Attr, i32>)
    ensures
        r == attr_of(calls::outcome_view(o)),
{
    match o {
        Ok(AnswerOf::Attr(a)) => Ok(a),
        Ok(_) => Err(EIO),
        Err(e) => Err(e),
    }
}

/// The qid path of the file that a walk by name ended at.
pub open spec fn walked_to(o: calls::Outcome) -> Result<u64, i32> {
    match o {
        Ok(AnswerOf::Qids(q)) => if q.len() > 0 {
            Ok(q.last().path)
        } else {
            Err(EIO)
        },
        Ok(_) => Err(EIO),
        Err(e) => Err(e),
    }
}

pub fn walk_answer(o: Result<Answer, i32>) -> (r: Result<u64, i32>)
    ensures
        r == walked_to(calls::outcome_view(o)),
{
    match o {
        Ok(AnswerOf::Qids(q)) => if q.len() > 0 {
            Ok(q[q.len() - 1].path)
        } else {
            Err(EIO)
        },
        Ok(_) => Err(EIO),
        Err(e) => Err(e),
    }
}

/// The entries that a readdir answered.
pub open spec fn entries_of(o: calls::Outcome) -> Result<Seq<ninep::DirEntryView>, i32> {
    match o {
        Ok(AnswerOf::Entries(l)) => Ok(l),
        Ok(_) => Err(EIO),
        Err(e) => Err(e),
    }
}

pub fn entries_answer(o: Result<Answer, i32>) -> (r: Result<Vec<DirEntry>, i32>)
    ensures
        match r {
            Ok(l) => entries_of(calls::outcome_view(o)) == Ok::<Seq<ninep::DirEntryView>, i32>(
                ninep::entry_views(l@),
            ),
            Err(e) => entries_of(calls::outcome_view(o)) == Err::<Seq<ninep::DirEntryView>, i32>(e),
        },
{
    match o {
        Ok(AnswerOf::Entries(l)) => Ok(l),
        Ok(_) => Err(EIO),
        Err(e) => Err(e),
    }
}

} // verus!
