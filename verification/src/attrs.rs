//! From 9p attributes to those of the kernel, and from the kernel's changes to a Tsetattr.

use crate::calls;
use crate::calls::{Call, CallOf};
use crate::ninep;
use crate::ninep::Attr;
use crate::tuning::Span;
use vstd::prelude::*;

verus! {

// The type bits of a mode.
pub const S_IFMT: u32 = 0o170000;
pub const S_IFDIR: u32 = 0o040000;
pub const S_IFLNK: u32 = 0o120000;

/// The permission bits of a mode.
pub const PERM_MASK: u32 = 0o7777;

// The type bits of a qid.
pub const QT_DIR: u8 = 0x80;
pub const QT_SYMLINK: u8 = 0x02;

/// The inode number of the mount's root.
pub const ROOT_INO: u64 = 1;

/// What kind of file an inode is, as far as the mount tells them apart.
#[derive(Clone, Copy, Debug, PartialEq, Eq)]
pub enum FileType {
    Directory,
    Symlink,
    RegularFile,
}

/// The attributes of an inode, as the kernel takes them.
#[derive(Clone, Copy, Debug, PartialEq, Eq)]
pub struct FileAttr {
    pub ino: u64,
    pub size: u64,
    pub blocks: u64,
    pub atime: Span,
    pub mtime: Span,
    pub ctime: Span,
    pub crtime: Span,
    pub kind: FileType,
    pub perm: u16,
    pub nlink: u32,
    pub uid: u32,
    pub gid: u32,
    pub rdev: u32,
    pub blksize: u32,
    pub flags: u32,
}

/// The inode number for a qid path: the path itself, except that the export's root is the mount's.
pub open spec fn ino_of(qid_path: u64, root_qid_path: u64) -> u64 {
    if qid_path == root_qid_path {
        ROOT_INO
    } else {
        qid_path
    }
}

/// Maps a qid path to an inode number. A path is a stable unique id of a file, so it serves as the
/// inode number directly, except that the export's root must be the mount's root.
pub fn qid_to_ino(qid_path: u64, root_qid_path: u64) -> (ino: u64)
    ensures
        ino == ino_of(qid_path, root_qid_path),
{
    if qid_path == root_qid_path {
        ROOT_INO
    } else {
        qid_path
    }
}

/// Two files share an inode number only where one is the export's root and the other has the qid
/// path 1.
pub proof fn inode_numbers_collide_only_with_root(a: u64, b: u64, root: u64)
    requires
        a != b,
        ino_of(a, root) == ino_of(b, root),
    ensures
        (a == root && b == ROOT_INO) || (b == root && a == ROOT_INO),
{
}

/// A zeroed attribute record (inode 0), by which a lookup that found nothing is remembered.
pub open spec fn no_attr() -> FileAttr {
    FileAttr {
        ino: 0,
        size: 0,
        blocks: 0,
        atime: Span { secs: 0, nanos: 0 },
        mtime: Span { secs: 0, nanos: 0 },
        ctime: Span { secs: 0, nanos: 0 },
        crtime: Span { secs: 0, nanos: 0 },
        kind: FileType::RegularFile,
        perm: 0,
        nlink: 0,
        uid: 0,
        gid: 0,
        rdev: 0,
        blksize: 512,
        flags: 0,
    }
}

/// The record for a lookup that found nothing: the kernel reads inode 0 as "no such entry".
pub fn negative_attr() -> (a: FileAttr)
    ensures
        a == no_attr(),
{
    let epoch = Span { secs: 0, nanos: 0 };
    FileAttr {
        ino: 0,
        size: 0,
        blocks: 0,
        atime: epoch,
        mtime: epoch,
        ctime: epoch,
        crtime: epoch,
        kind: FileType::RegularFile,
        perm: 0,
        nlink: 0,
        uid: 0,
        gid: 0,
        rdev: 0,
        blksize: 512,
        flags: 0,
    }
}

/// A 9p time: the low 32 bits of the nanoseconds count, and at most 999999999 of them.
pub open spec fn time_of(t: (u64, u64)) -> Span {
    Span {
        secs: t.0,
        nanos: if t.1 as u32 > 999_999_999 {
            999_999_999
        } else {
            t.1 as u32
        },
    }
}

/// A point in time from seconds and nanoseconds since the epoch.
pub fn unixtime(t: (u64, u64)) -> (s: Span)
    ensures
        s == time_of(t),
{
    let nanos: u32 = t.1 as u32;
    Span {
        secs: t.0,
        nanos: if nanos > 999_999_999 {
            999_999_999
        } else {
            nanos
        },
    }
}

/// The kind of file that a mode tells.
pub open spec fn mode_kind(mode: u32) -> FileType {
    if mode & S_IFMT == S_IFDIR {
        FileType::Directory
    } else if mode & S_IFMT == S_IFLNK {
        FileType::Symlink
    } else {
        FileType::RegularFile
    }
}

pub fn kind_from_mode(mode: u32) -> (k: FileType)
    ensures
        k == mode_kind(mode),
{
    let bits: u32 = mode & S_IFMT;
    if bits == S_IFDIR {
        FileType::Directory
    } else if bits == S_IFLNK {
        FileType::Symlink
    } else {
        FileType::RegularFile
    }
}

/// The kind of file that a qid's type tells.
pub open spec fn qid_kind(typ: u8) -> FileType {
    if typ & QT_DIR != 0 {
        FileType::Directory
    } else if typ & QT_SYMLINK != 0 {
        FileType::Symlink
    } else {
        FileType::RegularFile
    }
}

pub fn kind_from_qid(typ: u8) -> (k: FileType)
    ensures
        k == qid_kind(typ),
{
    if typ & QT_DIR != 0 {
        FileType::Directory
    } else if typ & QT_SYMLINK != 0 {
        FileType::Symlink
    } else {
        FileType::RegularFile
    }
}

/// The kernel's record for 9p attributes. A link count of 0 counts as 1, and a block size below 512
/// as 512; numbers too large for the record's fields are cut to their low bits.
pub open spec fn file_attr(ino: u64, a: Attr) -> FileAttr {
    FileAttr {
        ino,
        size: a.size,
        blocks: a.blocks,
        atime: time_of(a.atime),
        mtime: time_of(a.mtime),
        ctime: time_of(a.ctime),
        crtime: Span { secs: 0, nanos: 0 },
        kind: mode_kind(a.mode),
        perm: (a.mode & PERM_MASK) as u16,
        nlink: if a.nlink == 0 {
            1
        } else {
            a.nlink as u32
        },
        uid: a.uid,
        gid: a.gid,
        rdev: a.rdev as u32,
        blksize: if a.blksize < 512 {
            512
        } else {
            a.blksize as u32
        },
        flags: 0,
    }
}

pub fn to_fileattr(ino: u64, a: &Attr) -> (r: FileAttr)
    ensures
        r == file_attr(ino, *a),
{
    FileAttr {
        ino,
        size: a.size,
        blocks: a.blocks,
        atime: unixtime(a.atime),
        mtime: unixtime(a.mtime),
        ctime: unixtime(a.ctime),
        crtime: Span { secs: 0, nanos: 0 },
        kind: kind_from_mode(a.mode),
        perm: (a.mode & PERM_MASK) as u16,
        nlink: if a.nlink == 0 {
            1
        } else {
            a.nlink as u32
        },
        uid: a.uid,
        gid: a.gid,
        rdev: a.rdev as u32,
        blksize: if a.blksize < 512 {
            512
        } else {
            a.blksize as u32
        },
        flags: 0,
    }
}

/// A time to set, either given as such or read from the clock because the current time was asked
/// for. `None` is a time before the epoch.
#[derive(Clone, Copy, Debug, PartialEq, Eq)]
pub enum TimeOrNow {
    SpecificTime(Option<Span>),
    Now(Option<Span>),
}

/// The pair of numbers that goes on the wire for a time to set. Times before the epoch count as the
/// epoch.
pub open spec fn wire_time(t: Option<TimeOrNow>) -> (u64, u64) {
    match t {
        Some(TimeOrNow::SpecificTime(Some(s))) => (s.secs, s.nanos as u64),
        Some(TimeOrNow::Now(Some(s))) => (s.secs, s.nanos as u64),
        _ => (0, 0),
    }
}

pub fn time_or_now(t: TimeOrNow) -> (r: (u64, u64))
    ensures
        r == wire_time(Some(t)),
{
    match t {
        TimeOrNow::SpecificTime(Some(s)) => (s.secs, s.nanos as u64),
        TimeOrNow::Now(Some(s)) => (s.secs, s.nanos as u64),
        _ => (0, 0),
    }
}

/// The changes that a setattr asks for.
#[derive(Clone, Copy, Debug)]
pub struct Changes {
    pub mode: Option<u32>,
    pub uid: Option<u32>,
    pub gid: Option<u32>,
    pub size: Option<u64>,
    pub atime: Option<TimeOrNow>,
    pub mtime: Option<TimeOrNow>,
}

/// `bit` if `on`, else nothing.
pub open spec fn flag(on: bool, bit: u32) -> u32 {
    if on {
        bit
    } else {
        0
    }
}

/// Whether a time was given as such.
pub open spec fn is_specific(t: Option<TimeOrNow>) -> bool {
    t matches Some(TimeOrNow::SpecificTime(_))
}

/// Which attributes a setattr changes, as Tsetattr bits.
pub open spec fn changed_bits(c: Changes) -> u32 {
    flag(c.mode is Some, ninep::SETATTR_MODE) | flag(c.uid is Some, ninep::SETATTR_UID) | flag(
        c.gid is Some,
        ninep::SETATTR_GID,
    ) | flag(c.size is Some, ninep::SETATTR_SIZE) | flag(c.atime is Some, ninep::SETATTR_ATIME)
        | flag(is_specific(c.atime), ninep::SETATTR_ATIME_SET) | flag(
        c.mtime is Some,
        ninep::SETATTR_MTIME,
    ) | flag(is_specific(c.mtime), ninep::SETATTR_MTIME_SET)
}

/// The Tsetattr for the changes. What is not changed is sent as 0.
pub open spec fn setattr_call(fid: u32, c: Changes) -> calls::CallView {
    CallOf::Setattr {
        fid,
        valid: changed_bits(c),
        mode: match c.mode {
            Some(m) => m & PERM_MASK,
            None => 0,
        },
        uid: match c.uid {
            Some(u) => u,
            None => 0,
        },
        gid: match c.gid {
            Some(g) => g,
            None => 0,
        },
        size: match c.size {
            Some(s) => s,
            None => 0,
        },
        atime: wire_time(c.atime),
        mtime: wire_time(c.mtime),
    }
}

/// Adds `bit` to `valid` if `on`.
fn with_flag(valid: u32, on: bool, bit: u32) -> (r: u32)
    ensures
        r == valid | flag(on, bit),
{
    assert(valid | 0u32 == valid) by (bit_vector);
    if on {
        valid | bit
    } else {
        valid
    }
}

/// Builds the Tsetattr for the changes.
pub fn to_setattr(fid: u32, c: &Changes) -> (call: Call)
    ensures
        call@ == setattr_call(fid, *c),
{
    let atime_set: bool = match c.atime {
        Some(TimeOrNow::SpecificTime(_)) => true,
        _ => false,
    };
    let mtime_set: bool = match c.mtime {
        Some(TimeOrNow::SpecificTime(_)) => true,
        _ => false,
    };
    let mut valid: u32 = if c.mode.is_some() {
        ninep::SETATTR_MODE
    } else {
        0
    };
    valid = with_flag(valid, c.uid.is_some(), ninep::SETATTR_UID);
    valid = with_flag(valid, c.gid.is_some(), ninep::SETATTR_GID);
    valid = with_flag(valid, c.size.is_some(), ninep::SETATTR_SIZE);
    valid = with_flag(valid, c.atime.is_some(), ninep::SETATTR_ATIME);
    valid = with_flag(valid, atime_set, ninep::SETATTR_ATIME_SET);
    valid = with_flag(valid, c.mtime.is_some(), ninep::SETATTR_MTIME);
    valid = with_flag(valid, mtime_set, ninep::SETATTR_MTIME_SET);
    CallOf::Setattr {
        fid,
        valid,
        mode: match c.mode {
            Some(m) => m & PERM_MASK,
            None => 0,
        },
        uid: match c.uid {
            Some(u) => u,
            None => 0,
        },
        gid: match c.gid {
            Some(g) => g,
            None => 0,
        },
        size: match c.size {
            Some(s) => s,
            None => 0,
        },
        atime: match c.atime {
            Some(t) => time_or_now(t),
            None => (0, 0),
        },
        mtime: match c.mtime {
            Some(t) => time_or_now(t),
            None => (0, 0),
        },
    }
}

/// A setattr touches exactly the attributes that it was asked to change.
pub proof fn setattr_touches_what_it_changes(c: Changes)
    ensures
        changed_bits(c) & !0x1bfu32 == 0,
        (changed_bits(c) & ninep::SETATTR_MODE != 0) == (c.mode is Some),
        (changed_bits(c) & ninep::SETATTR_UID != 0) == (c.uid is Some),
        (changed_bits(c) & ninep::SETATTR_GID != 0) == (c.gid is Some),
        (changed_bits(c) & ninep::SETATTR_SIZE != 0) == (c.size is Some),
        (changed_bits(c) & ninep::SETATTR_ATIME != 0) == (c.atime is Some),
        (changed_bits(c) & ninep::SETATTR_MTIME != 0) == (c.mtime is Some),
        (changed_bits(c) & ninep::SETATTR_ATIME_SET != 0) == is_specific(c.atime),
        (changed_bits(c) & ninep::SETATTR_MTIME_SET != 0) == is_specific(c.mtime),
{
    let a = flag(c.mode is Some, 1u32);
    let b = flag(c.uid is Some, 2u32);
    let d = flag(c.gid is Some, 4u32);
    let e = flag(c.size is Some, 8u32);
    let f = flag(c.atime is Some, 0x10u32);
    let g = flag(is_specific(c.atime), 0x80u32);
    let h = flag(c.mtime is Some, 0x20u32);
    let i = flag(is_specific(c.mtime), 0x100u32);
    let all = a | b | d | e | f | g | h | i;
    assert(all == changed_bits(c));
    assert((all & 1 != 0) == (a != 0) && (all & 2 != 0) == (b != 0) && (all & 4 != 0) == (d != 0)
        && (all & 8 != 0) == (e != 0) && (all & 0x10 != 0) == (f != 0) && (all & 0x20 != 0) == (h
        != 0) && (all & 0x80 != 0) == (g != 0) && (all & 0x100 != 0) == (i != 0) && all & !0x1bf == 0)
        by (bit_vector)
        requires
            all == a | b | d | e | f | g | h | i,
            a == 0 || a == 1,
            b == 0 || b == 2,
            d == 0 || d == 4,
            e == 0 || e == 8,
            f == 0 || f == 0x10,
            g == 0 || g == 0x80,
            h == 0 || h == 0x20,
            i == 0 || i == 0x100,
    ;
}

/// The permission bits of a mode survive the trip through a setattr and the attributes it leads to:
/// what `chmod` sets is what `stat` shows.
pub proof fn permission_bits_round_trip(mode: u32, typ: u32, ino: u64, a: Attr)
    requires
        a.mode == typ | (mode & PERM_MASK),
        typ & PERM_MASK == 0,
    ensures
        file_attr(ino, a).perm as u32 == mode & PERM_MASK,
{
    let m = a.mode;
    assert((m & 0o7777) == mode & 0o7777 && ((m & 0o7777) as u16) as u32 == mode & 0o7777)
        by (bit_vector)
        requires
            m == typ | (mode & 0o7777),
            typ & 0o7777 == 0,
    ;
}

} // verus!
