//! The requests that a mount makes of the server, and the answers to them.

use crate::ninep;
use crate::ninep::{Attr, DirEntry, Qid};
use vstd::prelude::*;
use vstd::slice::slice_subrange;

verus! {

// Linux error numbers, which are also those of an Rlerror.
pub const ENOENT: i32 = 2;
pub const EIO: i32 = 5;
pub const EBADF: i32 = 9;

/// A request. `S` is the type of a name, `L` of a list of names, `B` of a run of bytes.
#[derive(Debug, PartialEq, Eq)]
pub enum CallOf<S, L, B> {
    /// Walk `names` from `fid` into the fresh `newfid`; without names, `newfid` becomes a clone.
    Walk { fid: u32, newfid: u32, names: L },
    Getattr { fid: u32 },
    Setattr {
        fid: u32,
        valid: u32,
        mode: u32,
        uid: u32,
        gid: u32,
        size: u64,
        atime: (u64, u64),
        mtime: (u64, u64),
    },
    /// Open an existing fid for I/O.
    Lopen { fid: u32, flags: u32 },
    /// Create a file in the directory `dfid` and leave `dfid` opened on the new file.
    Lcreate { dfid: u32, name: S, flags: u32, mode: u32, gid: u32 },
    Mkdir { dfid: u32, name: S, mode: u32, gid: u32 },
    Readdir { fid: u32, offset: u64, count: u32 },
    Read { fid: u32, offset: u64, count: u32 },
    Write { fid: u32, offset: u64, data: B },
    Clunk { fid: u32 },
    /// `flags` is 0 to unlink a file, `AT_REMOVEDIR` to remove a directory.
    Unlinkat { dfid: u32, name: S, flags: u32 },
    Fsync { fid: u32 },
    Renameat { olddfid: u32, oldname: S, newdfid: u32, newname: S },
    /// Create the symlink `name` to `target` in the directory `dfid`.
    Symlink { dfid: u32, name: S, target: S, gid: u32 },
    Readlink { fid: u32 },
    Statfs { fid: u32 },
}

/// A request as the program holds it.
pub type Call = CallOf<String, Vec<String>, Vec<u8>>;

/// What a request stands for.
pub type CallView = CallOf<Seq<char>, Seq<Seq<char>>, Seq<u8>>;

/// The names in a list, each as its characters.
pub open spec fn name_views(names: Seq<String>) -> Seq<Seq<char>> {
    names.map_values(|n: String| n@)
}

impl View for CallOf<String, Vec<String>, Vec<u8>> {
    type V = CallView;

    open spec fn view(&self) -> CallView {
        match *self {
            CallOf::Walk { fid, newfid, names } => CallOf::Walk {
                fid,
                newfid,
                names: name_views(names@),
            },
            CallOf::Getattr { fid } => CallOf::Getattr { fid },
            CallOf::Setattr { fid, valid, mode, uid, gid, size, atime, mtime } => CallOf::Setattr {
                fid,
                valid,
                mode,
                uid,
                gid,
                size,
                atime,
                mtime,
            },
            CallOf::Lopen { fid, flags } => CallOf::Lopen { fid, flags },
            CallOf::Lcreate { dfid, name, flags, mode, gid } => CallOf::Lcreate {
                dfid,
                name: name@,
                flags,
                mode,
                gid,
            },
            CallOf::Mkdir { dfid, name, mode, gid } => CallOf::Mkdir {
                dfid,
                name: name@,
                mode,
                gid,
            },
            CallOf::Readdir { fid, offset, count } => CallOf::Readdir { fid, offset, count },
            CallOf::Read { fid, offset, count } => CallOf::Read { fid, offset, count },
            CallOf::Write { fid, offset, data } => CallOf::Write { fid, offset, data: data@ },
            CallOf::Clunk { fid } => CallOf::Clunk { fid },
            CallOf::Unlinkat { dfid, name, flags } => CallOf::Unlinkat { dfid, name: name@, flags },
            CallOf::Fsync { fid } => CallOf::Fsync { fid },
            CallOf::Renameat { olddfid, oldname, newdfid, newname } => CallOf::Renameat {
                olddfid,
                oldname: oldname@,
                newdfid,
                newname: newname@,
            },
            CallOf::Symlink { dfid, name, target, gid } => CallOf::Symlink {
                dfid,
                name: name@,
                target: target@,
                gid,
            },
            CallOf::Readlink { fid } => CallOf::Readlink { fid },
            CallOf::Statfs { fid } => CallOf::Statfs { fid },
        }
    }
}

/// The message type of a request.
pub open spec fn call_type(call: CallView) -> u8 {
    match call {
        CallOf::Walk { .. } => ninep::TWALK,
        CallOf::Getattr { .. } => ninep::TGETATTR,
        CallOf::Setattr { .. } => ninep::TSETATTR,
        CallOf::Lopen { .. } => ninep::TLOPEN,
        CallOf::Lcreate { .. } => ninep::TLCREATE,
        CallOf::Mkdir { .. } => ninep::TMKDIR,
        CallOf::Readdir { .. } => ninep::TREADDIR,
        CallOf::Read { .. } => ninep::TREAD,
        CallOf::Write { .. } => ninep::TWRITE,
        CallOf::Clunk { .. } => ninep::TCLUNK,
        CallOf::Unlinkat { .. } => ninep::TUNLINKAT,
        CallOf::Fsync { .. } => ninep::TFSYNC,
        CallOf::Renameat { .. } => ninep::TRENAMEAT,
        CallOf::Symlink { .. } => ninep::TSYMLINK,
        CallOf::Readlink { .. } => ninep::TREADLINK,
        CallOf::Statfs { .. } => ninep::TSTATFS,
    }
}

/// Names on the wire, one after the other.
pub open spec fn names_bytes(names: Seq<Seq<char>>) -> Seq<u8>
    decreases names.len(),
{
    if names.len() == 0 {
        Seq::empty()
    } else {
        names_bytes(names.drop_last()) + ninep::str_bytes(names.last())
    }
}

/// A 32-bit number on the wire.
pub open spec fn le32(v: u32) -> Seq<u8> {
    ninep::le_bytes(v as nat, 4)
}

/// A 64-bit number on the wire.
pub open spec fn le64(v: u64) -> Seq<u8> {
    ninep::le_bytes(v as nat, 8)
}

/// The body of a request's message. A count that does not fit its field is cut to the low bits.
pub open spec fn call_body(call: CallView) -> Seq<u8> {
    match call {
        CallOf::Walk { fid, newfid, names } => le32(fid) + le32(newfid) + ninep::le_bytes(
            names.len() % 65536,
            2,
        ) + names_bytes(names),
        CallOf::Getattr { fid } => le32(fid) + le64(ninep::GETATTR_ALL),
        CallOf::Setattr { fid, valid, mode, uid, gid, size, atime, mtime } => le32(fid) + le32(
            valid,
        ) + le32(mode) + le32(uid) + le32(gid) + le64(size) + le64(atime.0) + le64(atime.1) + le64(
            mtime.0,
        ) + le64(mtime.1),
        CallOf::Lopen { fid, flags } => le32(fid) + le32(flags),
        CallOf::Lcreate { dfid, name, flags, mode, gid } => le32(dfid) + ninep::str_bytes(name)
            + le32(flags) + le32(mode) + le32(gid),
        CallOf::Mkdir { dfid, name, mode, gid } => le32(dfid) + ninep::str_bytes(name) + le32(mode)
            + le32(gid),
        CallOf::Readdir { fid, offset, count } => le32(fid) + le64(offset) + le32(count),
        CallOf::Read { fid, offset, count } => le32(fid) + le64(offset) + le32(count),
        CallOf::Write { fid, offset, data } => le32(fid) + le64(offset) + ninep::le_bytes(
            data.len() % 0x1_0000_0000,
            4,
        ) + data,
        CallOf::Clunk { fid } => le32(fid),
        CallOf::Unlinkat { dfid, name, flags } => le32(dfid) + ninep::str_bytes(name) + le32(flags),
        CallOf::Fsync { fid } => le32(fid) + le32(0),
        CallOf::Renameat { olddfid, oldname, newdfid, newname } => le32(olddfid) + ninep::str_bytes(
            oldname,
        ) + le32(newdfid) + ninep::str_bytes(newname),
        CallOf::Symlink { dfid, name, target, gid } => le32(dfid) + ninep::str_bytes(name)
            + ninep::str_bytes(target) + le32(gid),
        CallOf::Readlink { fid } => le32(fid),
        CallOf::Statfs { fid } => le32(fid),
    }
}

/// File system statistics, as an Rstatfs gives them.
#[derive(Clone, Copy, Debug, PartialEq, Eq)]
pub struct StatFs {
    pub bsize: u32,
    pub blocks: u64,
    pub bfree: u64,
    pub bavail: u64,
    pub files: u64,
    pub ffree: u64,
    pub namelen: u32,
}

/// An answer. `S` is the type of a text, `Q` of a list of qids, `E` of a list of directory entries,
/// `B` of a run of bytes.
#[derive(Debug, PartialEq, Eq)]
pub enum AnswerOf<S, Q, E, B> {
    /// To a walk: one qid per name.
    Qids(Q),
    Attr(Attr),
    /// To an open or a create: the file's qid and the server's I/O unit.
    Opened(Qid, u32),
    /// To a mkdir or a symlink: the new file's qid.
    Made(Qid),
    Entries(E),
    Data(B),
    /// To a write: how many bytes the server took.
    Count(u32),
    Link(S),
    Stat(StatFs),
    Done,
}

/// An answer as the program holds it.
pub type Answer = AnswerOf<String, Vec<Qid>, Vec<DirEntry>, Vec<u8>>;

/// What an answer stands for.
pub type AnswerView = AnswerOf<Seq<char>, Seq<Qid>, Seq<ninep::DirEntryView>, Seq<u8>>;

impl View for AnswerOf<String, Vec<Qid>, Vec<DirEntry>, Vec<u8>> {
    type V = AnswerView;

    open spec fn view(&self) -> AnswerView {
        match *self {
            AnswerOf::Qids(q) => AnswerOf::Qids(q@),
            AnswerOf::Attr(a) => AnswerOf::Attr(a),
            AnswerOf::Opened(q, u) => AnswerOf::Opened(q, u),
            AnswerOf::Made(q) => AnswerOf::Made(q),
            AnswerOf::Entries(e) => AnswerOf::Entries(ninep::entry_views(e@)),
            AnswerOf::Data(d) => AnswerOf::Data(d@),
            AnswerOf::Count(n) => AnswerOf::Count(n),
            AnswerOf::Link(s) => AnswerOf::Link(s@),
            AnswerOf::Stat(s) => AnswerOf::Stat(s),
            AnswerOf::Done => AnswerOf::Done,
        }
    }
}

/// What comes of a request: the answer, or an error number.
pub type Outcome = Result<AnswerView, i32>;

/// An outcome as the program holds it, by its view.
pub open spec fn outcome_view(r: Result<Answer, i32>) -> Outcome {
    match r {
        Ok(a) => Ok(a@),
        Err(e) => Err(e),
    }
}

/// The counted data behind the count at the front of `body`, as far as it is there.
pub open spec fn counted(body: Seq<u8>) -> Seq<u8>
    recommends
        body.len() >= 4,
{
    let n = ninep::field(body, 0, 4);
    body.subrange(
        4,
        if 4 + n < body.len() {
            4 + n as int
        } else {
            body.len() as int
        },
    )
}

/// The qids in the body of the Rwalk to a walk of `names` names, one for each. A server that could
/// walk only some of the names sends fewer, and has not made the new fid: that is no answer.
pub open spec fn walk_qids(body: Seq<u8>, names: nat) -> Option<Seq<Qid>> {
    let n = ninep::field(body, 0, 2);
    if body.len() >= 2 && body.len() >= 2 + 13 * n && n == names {
        Some(Seq::new(n, |i: int| ninep::qid_at(body, 2 + 13 * i)))
    } else {
        None
    }
}

/// The statistics in an Rstatfs body: type[4] bsize[4] blocks[8] bfree[8] bavail[8] files[8]
/// ffree[8] fsid[8] namelen[4].
pub open spec fn statfs_at(body: Seq<u8>) -> StatFs {
    StatFs {
        bsize: ninep::field(body, 4, 4) as u32,
        blocks: ninep::field(body, 8, 8) as u64,
        bfree: ninep::field(body, 16, 8) as u64,
        bavail: ninep::field(body, 24, 8) as u64,
        files: ninep::field(body, 32, 8) as u64,
        ffree: ninep::field(body, 40, 8) as u64,
        namelen: ninep::field(body, 56, 4) as u32,
    }
}

/// The answer in the body of the response to a request, if it is whole.
pub open spec fn answer_in(call: CallView, body: Seq<u8>) -> Option<AnswerView> {
    match call {
        CallOf::Walk { names, .. } => match walk_qids(body, names.len()) {
            Some(q) => Some(AnswerOf::Qids(q)),
            None => None,
        },
        CallOf::Getattr { .. } => if body.len() >= ninep::ATTR_LEN {
            Some(AnswerOf::Attr(ninep::attr_at(body)))
        } else {
            None
        },
        CallOf::Lopen { .. } | CallOf::Lcreate { .. } => if body.len() >= 17 {
            Some(AnswerOf::Opened(ninep::qid_at(body, 0), ninep::field(body, 13, 4) as u32))
        } else {
            None
        },
        CallOf::Mkdir { .. } | CallOf::Symlink { .. } => if body.len() >= 13 {
            Some(AnswerOf::Made(ninep::qid_at(body, 0)))
        } else {
            None
        },
        CallOf::Readdir { .. } => if body.len() >= 4 {
            Some(AnswerOf::Entries(ninep::entries_at(counted(body))))
        } else {
            None
        },
        CallOf::Read { .. } => if body.len() >= 4 {
            Some(AnswerOf::Data(counted(body)))
        } else {
            None
        },
        CallOf::Write { .. } => if body.len() >= 4 {
            Some(AnswerOf::Count(ninep::field(body, 0, 4) as u32))
        } else {
            None
        },
        CallOf::Readlink { .. } => if ninep::has_str(body) {
            Some(AnswerOf::Link(ninep::text_of(ninep::str_payload(body))))
        } else {
            None
        },
        CallOf::Statfs { .. } => if body.len() >= 60 {
            Some(AnswerOf::Stat(statfs_at(body)))
        } else {
            None
        },
        CallOf::Setattr { .. } | CallOf::Clunk { .. } | CallOf::Unlinkat { .. }
        | CallOf::Fsync { .. } | CallOf::Renameat { .. } => Some(AnswerOf::Done),
    }
}

/// Decodes the body of the Rwalk to a walk of `names` names: one qid for each.
pub fn walk_reply(body: &[u8], names: usize) -> (r: Result<Vec<Qid>, i32>)
    ensures
        match r {
            Ok(q) => walk_qids(body@, names as nat) == Some(q@) && q@.len() == names,
            Err(e) => walk_qids(body@, names as nat) is None && e == EIO,
        },
{
    let mut r = ninep::R::new(body);
    let nq: u16 = match r.u16() {
        Some(n) => n,
        None => {
            return Err(EIO);
        },
    };
    if nq as usize != names {
        return Err(EIO);
    }
    let mut out: Vec<Qid> = Vec::with_capacity(nq as usize);
    let mut i: u16 = 0;
    while i < nq
        invariant
            i <= nq,
            nq == ninep::field(body@, 0, 2) == names,
            2 + 13 * i <= body@.len(),
            r.rest() == body@.skip(2 + 13 * i),
            out@.len() == i,
            forall|j: int| 0 <= j < i ==> #[trigger] out@[j] == ninep::qid_at(body@, 2 + 13 * j),
        decreases nq - i,
    {
        let q: Qid = match r.qid() {
            Some(q) => q,
            None => {
                return Err(EIO);
            },
        };
        proof {
            let at = 2 + 13 * i as int;
            ninep::lemma_field_skip(body@, at, 1, 4);
            ninep::lemma_field_skip(body@, at, 5, 8);
            assert(q == ninep::qid_at(body@, at));
            assert(r.rest() =~= body@.skip(at + 13));
        }
        out.push(q);
        i = i + 1;
    }
    assert(out@ =~= walk_qids(body@, names as nat)->0);
    Ok(out)
}

/// Decodes an Rgetattr body.
pub fn getattr_reply(body: &[u8]) -> (r: Result<Attr, i32>)
    ensures
        r == (if body@.len() >= ninep::ATTR_LEN {
            Ok(ninep::attr_at(body@))
        } else {
            Err(EIO)
        }),
{
    match ninep::parse_getattr(body) {
        Some(a) => Ok(a),
        None => Err(EIO),
    }
}

/// Decodes an Rlopen or Rlcreate body: the file's qid and the server's I/O unit.
pub fn opened_reply(body: &[u8]) -> (r: Result<(Qid, u32), i32>)
    ensures
        r == (if body@.len() >= 17 {
            Ok((ninep::qid_at(body@, 0), ninep::field(body@, 13, 4) as u32))
        } else {
            Err(EIO)
        }),
{
    let mut r = ninep::R::new(body);
    let qid: Qid = match r.qid() {
        Some(q) => q,
        None => {
            return Err(EIO);
        },
    };
    proof {
        if body@.len() >= 17 {
            ninep::lemma_field_skip(body@, 13, 0, 4);
        }
    }
    match r.u32() {
        Some(iounit) => Ok((qid, iounit)),
        None => Err(EIO),
    }
}

/// Decodes an Rmkdir, Rsymlink or Rattach body, of which the qid is what matters.
pub fn qid_reply(body: &[u8]) -> (r: Result<Qid, i32>)
    ensures
        r == (if body@.len() >= 13 {
            Ok(ninep::qid_at(body@, 0))
        } else {
            Err(EIO)
        }),
{
    match ninep::R::new(body).qid() {
        Some(q) => Ok(q),
        None => Err(EIO),
    }
}

/// The counted data of an Rread or Rreaddir body. A count beyond the end of the body is cut.
fn counted_slice(body: &[u8]) -> (r: Option<&[u8]>)
    ensures
        match r {
            Some(s) => body@.len() >= 4 && s@ == counted(body@),
            None => body@.len() < 4,
        },
{
    let n: usize = match ninep::R::new(body).u32() {
        Some(n) => n as usize,
        None => {
            return None;
        },
    };
    let left: usize = body.len() - 4;
    let take: usize = if n < left {
        n
    } else {
        left
    };
    Some(slice_subrange(body, 4, 4 + take))
}

/// Decodes an Rreaddir body.
pub fn readdir_reply(body: &[u8]) -> (r: Result<Vec<DirEntry>, i32>)
    ensures
        match r {
            Ok(e) => body@.len() >= 4 && ninep::entry_views(e@) == ninep::entries_at(
                counted(body@),
            ),
            Err(e) => body@.len() < 4 && e == EIO,
        },
{
    match counted_slice(body) {
        Some(data) => Ok(ninep::parse_readdir(data)),
        None => Err(EIO),
    }
}

/// Decodes an Rread body.
pub fn read_reply(body: &[u8]) -> (r: Result<Vec<u8>, i32>)
    ensures
        match r {
            Ok(d) => body@.len() >= 4 && d@ == counted(body@),
            Err(e) => body@.len() < 4 && e == EIO,
        },
{
    match counted_slice(body) {
        Some(data) => Ok(vstd::slice::slice_to_vec(data)),
        None => Err(EIO),
    }
}

/// Decodes an Rwrite body: how many bytes the server took.
pub fn write_reply(body: &[u8]) -> (r: Result<u32, i32>)
    ensures
        r == (if body@.len() >= 4 {
            Ok(ninep::field(body@, 0, 4) as u32)
        } else {
            Err(EIO)
        }),
{
    match ninep::R::new(body).u32() {
        Some(n) => Ok(n),
        None => Err(EIO),
    }
}

/// Decodes an Rreadlink body.
pub fn readlink_reply(body: &[u8]) -> (r: Result<String, i32>)
    ensures
        match r {
            Ok(s) => ninep::has_str(body@) && s@ == ninep::text_of(ninep::str_payload(body@)),
            Err(e) => !ninep::has_str(body@) && e == EIO,
        },
{
    match ninep::R::new(body).str() {
        Some(s) => Ok(s),
        None => Err(EIO),
    }
}

/// Decodes an Rstatfs body.
pub fn statfs_reply(body: &[u8]) -> (r: Result<StatFs, i32>)
    ensures
        r == (if body@.len() >= 60 {
            Ok(statfs_at(body@))
        } else {
            Err(EIO)
        }),
{
    match statfs_fields(body) {
        Some(s) => Ok(s),
        None => Err(EIO),
    }
}

fn statfs_fields(body: &[u8]) -> (r: Option<StatFs>)
    ensures
        r == (if body@.len() >= 60 {
            Some(statfs_at(body@))
        } else {
            None
        }),
{
    let mut r = ninep::R::new(body);
    let ghost s = body@;
    let _typ: u32 = r.u32()?;
    let bsize: u32 = r.u32()?;
    proof {
        ninep::lemma_field_skip(s, 4, 0, 4);
        assert(r.rest() =~= s.skip(8));
    }
    let blocks: u64 = r.u64()?;
    proof {
        ninep::lemma_field_skip(s, 8, 0, 8);
        assert(r.rest() =~= s.skip(16));
    }
    let bfree: u64 = r.u64()?;
    proof {
        ninep::lemma_field_skip(s, 16, 0, 8);
        assert(r.rest() =~= s.skip(24));
    }
    let bavail: u64 = r.u64()?;
    proof {
        ninep::lemma_field_skip(s, 24, 0, 8);
        assert(r.rest() =~= s.skip(32));
    }
    let files: u64 = r.u64()?;
    proof {
        ninep::lemma_field_skip(s, 32, 0, 8);
        assert(r.rest() =~= s.skip(40));
    }
    let ffree: u64 = r.u64()?;
    proof {
        ninep::lemma_field_skip(s, 40, 0, 8);
        assert(r.rest() =~= s.skip(48));
    }
    let _fsid: u64 = r.u64()?;
    proof {
        assert(r.rest() =~= s.skip(56));
    }
    let namelen: u32 = r.u32()?;
    proof {
        ninep::lemma_field_skip(s, 56, 0, 4);
    }
    Some(StatFs { bsize, blocks, bfree, bavail, files, ffree, namelen })
}

/// The type of the response to a request.
pub fn response_type(call: &Call) -> (typ: u8)
    ensures
        typ == call_type(call@) + 1,
{
    match call {
        CallOf::Walk { .. } => ninep::RWALK,
        CallOf::Getattr { .. } => ninep::RGETATTR,
        CallOf::Setattr { .. } => ninep::RSETATTR,
        CallOf::Lopen { .. } => ninep::RLOPEN,
        CallOf::Lcreate { .. } => ninep::RLCREATE,
        CallOf::Mkdir { .. } => ninep::RMKDIR,
        CallOf::Readdir { .. } => ninep::RREADDIR,
        CallOf::Read { .. } => ninep::RREAD,
        CallOf::Write { .. } => ninep::RWRITE,
        CallOf::Clunk { .. } => ninep::RCLUNK,
        CallOf::Unlinkat { .. } => ninep::RUNLINKAT,
        CallOf::Fsync { .. } => ninep::RFSYNC,
        CallOf::Renameat { .. } => ninep::RRENAMEAT,
        CallOf::Symlink { .. } => ninep::RSYMLINK,
        CallOf::Readlink { .. } => ninep::RREADLINK,
        CallOf::Statfs { .. } => ninep::RSTATFS,
    }
}

/// Decodes the body of the response to a request. A body cut short is an I/O error, and so is the
/// answer to a walk that got only part of the way.
pub fn decode_answer(call: &Call, body: &[u8]) -> (r: Result<Answer, i32>)
    ensures
        match answer_in(call@, body@) {
            Some(a) => outcome_view(r) == Ok::<AnswerView, i32>(a),
            None => outcome_view(r) == Err::<AnswerView, i32>(EIO),
        },
{
    match call {
        CallOf::Walk { names, .. } => match walk_reply(body, names.len()) {
            Ok(q) => Ok(AnswerOf::Qids(q)),
            Err(e) => Err(e),
        },
        CallOf::Getattr { .. } => match getattr_reply(body) {
            Ok(a) => Ok(AnswerOf::Attr(a)),
            Err(e) => Err(e),
        },
        CallOf::Lopen { .. } | CallOf::Lcreate { .. } => match opened_reply(body) {
            Ok((qid, iounit)) => Ok(AnswerOf::Opened(qid, iounit)),
            Err(e) => Err(e),
        },
        CallOf::Mkdir { .. } | CallOf::Symlink { .. } => match qid_reply(body) {
            Ok(q) => Ok(AnswerOf::Made(q)),
            Err(e) => Err(e),
        },
        CallOf::Readdir { .. } => match readdir_reply(body) {
            Ok(l) => Ok(AnswerOf::Entries(l)),
            Err(e) => Err(e),
        },
        CallOf::Read { .. } => match read_reply(body) {
            Ok(d) => Ok(AnswerOf::Data(d)),
            Err(e) => Err(e),
        },
        CallOf::Write { .. } => match write_reply(body) {
            Ok(n) => Ok(AnswerOf::Count(n)),
            Err(e) => Err(e),
        },
        CallOf::Readlink { .. } => match readlink_reply(body) {
            Ok(t) => Ok(AnswerOf::Link(t)),
            Err(e) => Err(e),
        },
        CallOf::Statfs { .. } => match statfs_reply(body) {
            Ok(st) => Ok(AnswerOf::Stat(st)),
            Err(e) => Err(e),
        },
        CallOf::Setattr { .. } | CallOf::Clunk { .. } | CallOf::Unlinkat { .. }
        | CallOf::Fsync { .. } | CallOf::Renameat { .. } => Ok(AnswerOf::Done),
    }
}

/// The body of an Rwalk.
pub open spec fn walk_body(qids: Seq<Qid>) -> Seq<u8> {
    ninep::le_bytes(qids.len() % 65536, 2) + qids_bytes(qids)
}

/// Qids on the wire, one after the other.
pub open spec fn qids_bytes(qids: Seq<Qid>) -> Seq<u8>
    decreases qids.len(),
{
    if qids.len() == 0 {
        Seq::empty()
    } else {
        qids_bytes(qids.drop_last()) + ninep::qid_bytes(qids.last())
    }
}

proof fn lemma_qids_bytes(qids: Seq<Qid>, i: int)
    requires
        0 <= i < qids.len(),
    ensures
        qids_bytes(qids).len() == 13 * qids.len(),
        ninep::qid_at(qids_bytes(qids), 13 * i) == qids[i],
    decreases qids.len(),
{
    let front = qids_bytes(qids.drop_last());
    let last = ninep::qid_bytes(qids.last());
    let all = qids_bytes(qids);
    lemma_qids_len(qids);
    lemma_qids_len(qids.drop_last());
    ninep::qid_round_trip(qids.last(), Seq::empty());
    assert(last + Seq::<u8>::empty() =~= last);
    if i == qids.len() - 1 {
        let at = 13 * i;
        assert(all.subrange(at + 1, at + 5) =~= last.subrange(1, 5));
        assert(all.subrange(at + 5, at + 13) =~= last.subrange(5, 13));
    } else {
        lemma_qids_bytes(qids.drop_last(), i);
        let at = 13 * i;
        assert(all.subrange(at + 1, at + 5) =~= front.subrange(at + 1, at + 5));
        assert(all.subrange(at + 5, at + 13) =~= front.subrange(at + 5, at + 13));
    }
}

proof fn lemma_qids_len(qids: Seq<Qid>)
    ensures
        qids_bytes(qids).len() == 13 * qids.len(),
    decreases qids.len(),
{
    if qids.len() > 0 {
        lemma_qids_len(qids.drop_last());
        ninep::qid_round_trip(qids.last(), Seq::empty());
    }
}

/// A walk is answered by the qids that the server sends if there is one for each name; a walk that got
/// only part of the way has failed, so that no ancestor is taken for the file.
pub proof fn walks_are_whole_or_fail(
    fid: u32,
    newfid: u32,
    names: Seq<Seq<char>>,
    qids: Seq<Qid>,
)
    requires
        qids.len() < 65536,
    ensures
        answer_in(CallOf::Walk { fid, newfid, names }, walk_body(qids)) == if qids.len()
            == names.len() {
            Some(AnswerView::Qids(qids))
        } else {
            None
        },
{
    let body = walk_body(qids);
    let packed = qids_bytes(qids);
    ninep::lemma_byte_ranges();
    ninep::lemma_le_bytes_len(qids.len(), 2);
    ninep::field_round_trip(qids.len(), 2, packed);
    lemma_qids_len(qids);
    let read = Seq::new(qids.len(), |i: int| ninep::qid_at(body, 2 + 13 * i));
    assert forall|i: int| 0 <= i < qids.len() implies read[i] == qids[i] by {
        lemma_qids_bytes(qids, i);
        let at = 13 * i;
        assert(body.subrange(2 + at + 1, 2 + at + 5) =~= packed.subrange(at + 1, at + 5));
        assert(body.subrange(2 + at + 5, 2 + at + 13) =~= packed.subrange(at + 5, at + 13));
    }
    assert(read =~= qids);
}

/// What a server sends in answer to a read is what the read gives.
pub proof fn read_data_round_trip(fid: u32, offset: u64, count: u32, data: Seq<u8>)
    requires
        data.len() < 0x1_0000_0000,
    ensures
        answer_in(
            CallOf::Read { fid, offset, count },
            ninep::le_bytes(data.len(), 4) + data,
        ) == Some(AnswerView::Data(data)),
{
    ninep::lemma_byte_ranges();
    ninep::lemma_le_bytes_len(data.len(), 4);
    ninep::field_round_trip(data.len(), 4, data);
    assert(counted(ninep::le_bytes(data.len(), 4) + data) =~= data);
}

/// The directory entries that a server sends are what a directory read gives.
pub proof fn readdir_entries_round_trip(
    fid: u32,
    offset: u64,
    count: u32,
    l: Seq<ninep::DirEntryView>,
)
    requires
        forall|i: int|
            0 <= i < l.len() ==> vstd::utf8::encode_utf8(#[trigger] l[i].name).len() < 65536,
        ninep::entries_bytes(l).len() < 0x1_0000_0000,
    ensures
        ({
            let packed = ninep::entries_bytes(l);
            answer_in(
                CallOf::Readdir { fid, offset, count },
                ninep::le_bytes(packed.len(), 4) + packed,
            ) == Some(AnswerView::Entries(l))
        }),
{
    let packed = ninep::entries_bytes(l);
    ninep::lemma_byte_ranges();
    ninep::lemma_le_bytes_len(packed.len(), 4);
    ninep::field_round_trip(packed.len(), 4, packed);
    assert(counted(ninep::le_bytes(packed.len(), 4) + packed) =~= packed);
    ninep::entries_round_trip(l, Seq::empty());
    assert(packed + Seq::<u8>::empty() =~= packed);
}

/// A write carries its data to the server unchanged: the counted data in the message, behind the fid
/// and the offset, is what was to be written.
pub proof fn written_data_round_trip(fid: u32, offset: u64, data: Seq<u8>)
    requires
        data.len() < 0x1_0000_0000,
    ensures
        ({
            let body = call_body(CallOf::Write { fid, offset, data });
            &&& ninep::field(body, 0, 4) == fid
            &&& ninep::field(body, 4, 8) == offset
            &&& counted(body.skip(12)) == data
        }),
{
    let body = call_body(CallOf::Write { fid, offset, data });
    let count = ninep::le_bytes(data.len(), 4);
    ninep::lemma_byte_ranges();
    ninep::lemma_le_bytes_len(fid as nat, 4);
    ninep::lemma_le_bytes_len(offset as nat, 8);
    ninep::lemma_le_bytes_len(data.len(), 4);
    ninep::field_round_trip(fid as nat, 4, le64(offset) + (count + data));
    ninep::field_round_trip(offset as nat, 8, count + data);
    ninep::field_round_trip(data.len(), 4, data);
    assert(body =~= le32(fid) + (le64(offset) + (count + data)));
    assert(body.skip(4) =~= le64(offset) + (count + data));
    ninep::lemma_field_skip(body, 4, 0, 8);
    assert(body.skip(12) =~= count + data);
    assert(counted(count + data) =~= data);
}

} // verus!
