//! Where the parts of each message lie, byte by byte.
//!
//! The laws here tell the 9P2000.L messages that are sent and understood by the bytes at fixed places:
//! numbers are in little-endian order, and a string is its UTF-8 bytes behind their count.

use crate::calls;
use crate::calls::{AnswerOf, CallOf, StatFs};
use crate::client;
use crate::frame;
use crate::frame::FrameView;
use crate::ninep;
use crate::ninep::{Attr, Qid};
use vstd::prelude::*;

verus! {

/// The two-byte number at a place.
pub open spec fn num2(s: Seq<u8>, at: int) -> int {
    s[at] + 0x100 * s[at + 1]
}

/// The four-byte number at a place.
pub open spec fn num4(s: Seq<u8>, at: int) -> int {
    num2(s, at) + 0x1_0000 * num2(s, at + 2)
}

/// The eight-byte number at a place.
pub open spec fn num8(s: Seq<u8>, at: int) -> int {
    num4(s, at) + 0x1_0000_0000 * num4(s, at + 4)
}

/// That a string lies at a place, and what lies behind it starts at `end`.
pub open spec fn spelled(s: Seq<u8>, at: int, text: Seq<char>, end: int) -> bool {
    let utf8 = vstd::utf8::encode_utf8(text);
    &&& num2(s, at) == utf8.len()
    &&& end == at + 2 + utf8.len() <= s.len()
    &&& s.subrange(at + 2, end) == utf8
}

/// Whether a string's length fits its count.
pub open spec fn countable(text: Seq<char>) -> bool {
    vstd::utf8::encode_utf8(text).len() < 65536
}

/// That a qid lies at a place.
pub open spec fn qid_lies(s: Seq<u8>, at: int, q: Qid) -> bool {
    q.typ == s[at] && q.version == num4(s, at + 1) && q.path == num8(s, at + 5)
}

proof fn lemma_value2(s: Seq<u8>)
    requires
        s.len() == 2,
    ensures
        ninep::le_value(s) == num2(s, 0),
{
    reveal_with_fuel(ninep::le_value, 3);
}

proof fn lemma_value4(s: Seq<u8>)
    requires
        s.len() == 4,
    ensures
        ninep::le_value(s) == num4(s, 0),
{
    let t = s.drop_first().drop_first();
    lemma_value2(t);
    reveal_with_fuel(ninep::le_value, 3);
}

proof fn lemma_value8(s: Seq<u8>)
    requires
        s.len() == 8,
    ensures
        ninep::le_value(s) == num8(s, 0),
{
    let t = s.drop_first().drop_first().drop_first().drop_first();
    lemma_value4(t);
    reveal_with_fuel(ninep::le_value, 5);
}

/// A number in a message is read in little-endian order.
pub proof fn numbers_are_little_endian(s: Seq<u8>, at: int)
    requires
        0 <= at,
    ensures
        at + 2 <= s.len() ==> ninep::field(s, at, 2) == num2(s, at),
        at + 4 <= s.len() ==> ninep::field(s, at, 4) == num4(s, at),
        at + 8 <= s.len() ==> ninep::field(s, at, 8) == num8(s, at),
{
    if at + 2 <= s.len() {
        lemma_value2(s.subrange(at, at + 2));
    }
    if at + 4 <= s.len() {
        lemma_value4(s.subrange(at, at + 4));
    }
    if at + 8 <= s.len() {
        lemma_value8(s.subrange(at, at + 8));
    }
}

/// A two-byte number that lies at a place reads as that number.
proof fn lemma_num2(s: Seq<u8>, at: int, v: nat)
    requires
        0 <= at,
        at + 2 <= s.len(),
        v < 65536,
        s.subrange(at, at + 2) == ninep::le_bytes(v, 2),
    ensures
        num2(s, at) == v,
{
    ninep::lemma_byte_ranges();
    ninep::le_round_trip(v, 2);
    numbers_are_little_endian(s, at);
}

proof fn lemma_num4(s: Seq<u8>, at: int, v: u32)
    requires
        0 <= at,
        at + 4 <= s.len(),
        s.subrange(at, at + 4) == calls::le32(v),
    ensures
        num4(s, at) == v,
{
    ninep::lemma_byte_ranges();
    ninep::le_round_trip(v as nat, 4);
    numbers_are_little_endian(s, at);
}

proof fn lemma_num8(s: Seq<u8>, at: int, v: u64)
    requires
        0 <= at,
        at + 8 <= s.len(),
        s.subrange(at, at + 8) == calls::le64(v),
    ensures
        num8(s, at) == v,
{
    ninep::lemma_byte_ranges();
    ninep::le_round_trip(v as nat, 8);
    numbers_are_little_endian(s, at);
}

/// A string that was written at a place lies there.
proof fn lemma_spelled(s: Seq<u8>, at: int, text: Seq<char>)
    requires
        0 <= at,
        countable(text),
        at + ninep::str_bytes(text).len() <= s.len(),
        s.subrange(at, at + ninep::str_bytes(text).len() as int) == ninep::str_bytes(text),
    ensures
        spelled(s, at, text, at + ninep::str_bytes(text).len() as int),
        ninep::str_bytes(text).len() == 2 + vstd::utf8::encode_utf8(text).len(),
{
    let utf8 = vstd::utf8::encode_utf8(text);
    let packed = ninep::str_bytes(text);
    ninep::lemma_le_bytes_len(utf8.len(), 2);
    assert(s.subrange(at, at + 2) =~= s.subrange(at, at + packed.len()).subrange(0, 2));
    assert(packed.subrange(0, 2) =~= ninep::le_bytes(utf8.len(), 2));
    lemma_num2(s, at, utf8.len());
    assert(s.subrange(at + 2, at + packed.len()) =~= s.subrange(at, at + packed.len()).subrange(
        2,
        packed.len() as int,
    ));
    assert(packed.subrange(2, packed.len() as int) =~= utf8);
}

/// A message starts with its whole length, its type and its tag; its body is behind them.
pub proof fn frames_are_laid_out(typ: u8, tag: u16, body: Seq<u8>)
    requires
        7 + body.len() < 0x1_0000_0000,
    ensures
        ({
            let f = frame::frame_bytes(typ, tag, body);
            &&& f.len() == 7 + body.len() && num4(f, 0) == f.len()
            &&& f[4] == typ && num2(f, 5) == tag
            &&& f.skip(7) == body
        }),
{
    let f = frame::frame_bytes(typ, tag, body);
    let size = (7 + body.len()) as u32;
    ninep::lemma_le_bytes_len(7 + body.len(), 4);
    ninep::lemma_le_bytes_len(tag as nat, 2);
    assert(f.subrange(0, 4) =~= calls::le32(size));
    lemma_num4(f, 0, size);
    assert(f.subrange(5, 7) =~= ninep::le_bytes(tag as nat, 2));
    lemma_num2(f, 5, tag as nat);
    assert(f.skip(7) =~= body);
}

/// The messages in what has arrived are cut by the lengths that they start with. A length below that
/// of the shortest message, or a message that has not arrived whole, ends the cutting.
pub proof fn arrivals_are_cut_by_their_lengths(acc: Seq<u8>)
    ensures
        ({
            let whole = acc.len() >= 7 && 7 <= num4(acc, 0) <= acc.len();
            let frames = frame::frames_in(acc);
            if whole {
                let later = acc.skip(num4(acc, 0));
                &&& frames.len() == 1 + frame::frames_in(later).len()
                &&& frames[0].typ == acc[4]
                &&& frames[0].body == acc.subrange(5, num4(acc, 0))
                &&& frames.skip(1) == frame::frames_in(later)
                &&& frame::left_in(acc) == frame::left_in(later)
            } else {
                frames.len() == 0 && frame::left_in(acc) == acc
            }
        }),
{
    if acc.len() >= 4 {
        numbers_are_little_endian(acc, 0);
    }
    if frame::has_frame(acc) {
        assert(frame::frames_in(acc).skip(1) =~= frame::frames_in(acc.skip(frame::frame_size(acc))));
    }
}

/// The number of each kind of message. An answer has the number behind its request's.
pub proof fn messages_have_their_numbers(call: calls::CallView)
    ensures
        calls::call_type(call) == match call {
            CallOf::Statfs { .. } => 8,
            CallOf::Lopen { .. } => 12,
            CallOf::Lcreate { .. } => 14,
            CallOf::Symlink { .. } => 16,
            CallOf::Readlink { .. } => 22,
            CallOf::Getattr { .. } => 24,
            CallOf::Setattr { .. } => 26,
            CallOf::Readdir { .. } => 40,
            CallOf::Fsync { .. } => 50,
            CallOf::Mkdir { .. } => 72,
            CallOf::Renameat { .. } => 74,
            CallOf::Unlinkat { .. } => 76,
            CallOf::Walk { .. } => 110u8,
            CallOf::Read { .. } => 116,
            CallOf::Write { .. } => 118,
            CallOf::Clunk { .. } => 120,
        },
{
}

/// A call that is made is one message with the call's number, its own tag and its body, and its answer
/// is awaited under that tag.
pub proof fn calls_are_sent_whole(
    before: client::ClientView,
    after: client::ClientView,
    r: client::Request,
    call: calls::CallView,
)
    requires
        client::called(before, after, r, call),
        7 + calls::call_body(call).len() < 0x1_0000_0000,
    ensures
        ({
            let f = r.frame@;
            &&& num4(f, 0) == f.len() && f[4] == calls::call_type(call) && num2(f, 5) == r.tag
            &&& f.skip(7) == calls::call_body(call)
            &&& r.expect == calls::call_type(call) + 1
            &&& r.tag != 0xffff
            &&& after.waiting == before.waiting.insert(r.tag)
            &&& before.next_tag != 0xffff ==> r.tag == before.next_tag
            &&& after.next_tag == r.tag + 1
            &&& after.next_fid == before.next_fid && after.acc == before.acc
            &&& after.msize == before.msize && after.root_fid == before.root_fid
        }),
{
    messages_have_their_numbers(call);
    frames_are_laid_out(calls::call_type(call), r.tag, calls::call_body(call));
}

/// The calls whose bodies are numbers only.
pub proof fn numbers_are_sent_in_place(call: calls::CallView)
    ensures
        ({
            let b = calls::call_body(call);
            match call {
                CallOf::Getattr { fid } => b.len() == 12 && num4(b, 0) == fid && num8(b, 4)
                    == 0x3fff,
                CallOf::Setattr { fid, valid, mode, uid, gid, size, atime, mtime } => {
                    &&& b.len() == 60
                    &&& num4(b, 0) == fid && num4(b, 4) == valid && num4(b, 8) == mode
                    &&& num4(b, 12) == uid && num4(b, 16) == gid && num8(b, 20) == size
                    &&& num8(b, 28) == atime.0 && num8(b, 36) == atime.1
                    &&& num8(b, 44) == mtime.0 && num8(b, 52) == mtime.1
                },
                CallOf::Lopen { fid, flags } => b.len() == 8 && num4(b, 0) == fid && num4(b, 4)
                    == flags,
                CallOf::Readdir { fid, offset, count } => b.len() == 16 && num4(b, 0) == fid
                    && num8(b, 4) == offset && num4(b, 12) == count,
                CallOf::Read { fid, offset, count } => b.len() == 16 && num4(b, 0) == fid
                    && num8(b, 4) == offset && num4(b, 12) == count,
                CallOf::Write { fid, offset, data } => data.len() < 0x1_0000_0000 ==> {
                    &&& b.len() == 16 + data.len() && num4(b, 0) == fid && num8(b, 4) == offset
                    &&& num4(b, 12) == data.len() && b.skip(16) == data
                },
                CallOf::Clunk { fid } => b.len() == 4 && num4(b, 0) == fid,
                CallOf::Fsync { fid } => b.len() == 8 && num4(b, 0) == fid && num4(b, 4) == 0,
                CallOf::Readlink { fid } => b.len() == 4 && num4(b, 0) == fid,
                CallOf::Statfs { fid } => b.len() == 4 && num4(b, 0) == fid,
                _ => true,
            }
        }),
{
    let b = calls::call_body(call);
    match call {
        CallOf::Getattr { fid } => {
            ninep::lemma_le_bytes_len(fid as nat, 4);
            ninep::lemma_le_bytes_len(0x3fff, 8);
            assert(b.subrange(0, 4) =~= calls::le32(fid));
            lemma_num4(b, 0, fid);
            assert(b.subrange(4, 12) =~= calls::le64(0x3fff));
            lemma_num8(b, 4, 0x3fff);
        },
        CallOf::Setattr { fid, valid, mode, uid, gid, size, atime, mtime } => {
            lemma_setattr_body(fid, valid, mode, uid, gid, size, atime, mtime);
        },
        CallOf::Lopen { fid, flags } => {
            lemma_two_numbers(fid, flags);
        },
        CallOf::Readdir { fid, offset, count } => {
            lemma_span(fid, offset, count);
        },
        CallOf::Read { fid, offset, count } => {
            lemma_span(fid, offset, count);
        },
        CallOf::Write { fid, offset, data } => {
            if data.len() < 0x1_0000_0000 {
                let count = data.len() as u32;
                lemma_span(fid, offset, count);
                let front = calls::le32(fid) + calls::le64(offset) + calls::le32(count);
                assert(b == front + data);
                assert(b.subrange(0, 4) =~= front.subrange(0, 4));
                assert(b.subrange(4, 12) =~= front.subrange(4, 12));
                assert(b.subrange(12, 16) =~= front.subrange(12, 16));
                assert(front.subrange(0, 4) =~= calls::le32(fid)) by {
                    ninep::lemma_le_bytes_len(fid as nat, 4);
                }
                assert(b.skip(16) =~= data);
            }
        },
        CallOf::Clunk { fid } | CallOf::Readlink { fid } | CallOf::Statfs { fid } => {
            ninep::lemma_le_bytes_len(fid as nat, 4);
            assert(b.subrange(0, 4) =~= calls::le32(fid));
            lemma_num4(b, 0, fid);
        },
        CallOf::Fsync { fid } => {
            lemma_two_numbers(fid, 0);
        },
        _ => {},
    }
}

proof fn lemma_two_numbers(x: u32, y: u32)
    ensures
        ({
            let b = calls::le32(x) + calls::le32(y);
            b.len() == 8 && num4(b, 0) == x && num4(b, 4) == y
        }),
{
    let b = calls::le32(x) + calls::le32(y);
    ninep::lemma_le_bytes_len(x as nat, 4);
    ninep::lemma_le_bytes_len(y as nat, 4);
    assert(b.subrange(0, 4) =~= calls::le32(x));
    lemma_num4(b, 0, x);
    assert(b.subrange(4, 8) =~= calls::le32(y));
    lemma_num4(b, 4, y);
}

proof fn lemma_span(fid: u32, offset: u64, count: u32)
    ensures
        ({
            let b = calls::le32(fid) + calls::le64(offset) + calls::le32(count);
            b.len() == 16 && num4(b, 0) == fid && num8(b, 4) == offset && num4(b, 12) == count
        }),
{
    let b = calls::le32(fid) + calls::le64(offset) + calls::le32(count);
    ninep::lemma_le_bytes_len(fid as nat, 4);
    ninep::lemma_le_bytes_len(offset as nat, 8);
    ninep::lemma_le_bytes_len(count as nat, 4);
    assert(b.subrange(0, 4) =~= calls::le32(fid));
    lemma_num4(b, 0, fid);
    assert(b.subrange(4, 12) =~= calls::le64(offset));
    lemma_num8(b, 4, offset);
    assert(b.subrange(12, 16) =~= calls::le32(count));
    lemma_num4(b, 12, count);
}

#[verifier::spinoff_prover]
proof fn lemma_setattr_body(
    fid: u32,
    valid: u32,
    mode: u32,
    uid: u32,
    gid: u32,
    size: u64,
    atime: (u64, u64),
    mtime: (u64, u64),
)
    ensures
        ({
            let b = calls::call_body(
                CallOf::Setattr { fid, valid, mode, uid, gid, size, atime, mtime },
            );
            &&& b.len() == 60
            &&& num4(b, 0) == fid && num4(b, 4) == valid && num4(b, 8) == mode
            &&& num4(b, 12) == uid && num4(b, 16) == gid && num8(b, 20) == size
            &&& num8(b, 28) == atime.0 && num8(b, 36) == atime.1
            &&& num8(b, 44) == mtime.0 && num8(b, 52) == mtime.1
        }),
{
    let b = calls::call_body(CallOf::Setattr { fid, valid, mode, uid, gid, size, atime, mtime });
    ninep::lemma_le_bytes_len(fid as nat, 4);
    ninep::lemma_le_bytes_len(valid as nat, 4);
    ninep::lemma_le_bytes_len(mode as nat, 4);
    ninep::lemma_le_bytes_len(uid as nat, 4);
    ninep::lemma_le_bytes_len(gid as nat, 4);
    ninep::lemma_le_bytes_len(size as nat, 8);
    ninep::lemma_le_bytes_len(atime.0 as nat, 8);
    ninep::lemma_le_bytes_len(atime.1 as nat, 8);
    ninep::lemma_le_bytes_len(mtime.0 as nat, 8);
    ninep::lemma_le_bytes_len(mtime.1 as nat, 8);
    assert(b.subrange(0, 4) =~= calls::le32(fid));
    lemma_num4(b, 0, fid);
    assert(b.subrange(4, 8) =~= calls::le32(valid));
    lemma_num4(b, 4, valid);
    assert(b.subrange(8, 12) =~= calls::le32(mode));
    lemma_num4(b, 8, mode);
    assert(b.subrange(12, 16) =~= calls::le32(uid));
    lemma_num4(b, 12, uid);
    assert(b.subrange(16, 20) =~= calls::le32(gid));
    lemma_num4(b, 16, gid);
    assert(b.subrange(20, 28) =~= calls::le64(size));
    lemma_num8(b, 20, size);
    assert(b.subrange(28, 36) =~= calls::le64(atime.0));
    lemma_num8(b, 28, atime.0);
    assert(b.subrange(36, 44) =~= calls::le64(atime.1));
    lemma_num8(b, 36, atime.1);
    assert(b.subrange(44, 52) =~= calls::le64(mtime.0));
    lemma_num8(b, 44, mtime.0);
    assert(b.subrange(52, 60) =~= calls::le64(mtime.1));
    lemma_num8(b, 52, mtime.1);
}

/// A call about a name in a directory starts with the directory's fid and the name.
proof fn lemma_named(dfid: u32, name: Seq<char>, rest: Seq<u8>)
    requires
        countable(name),
    ensures
        ({
            let b = calls::le32(dfid) + ninep::str_bytes(name) + rest;
            let end = 6 + vstd::utf8::encode_utf8(name).len();
            &&& num4(b, 0) == dfid && spelled(b, 4, name, end as int)
            &&& b.len() == end + rest.len() && b.skip(end as int) == rest
        }),
{
    let b = calls::le32(dfid) + ninep::str_bytes(name) + rest;
    let packed = ninep::str_bytes(name);
    ninep::lemma_le_bytes_len(dfid as nat, 4);
    ninep::lemma_le_bytes_len(vstd::utf8::encode_utf8(name).len() as nat, 2);
    assert(b.subrange(0, 4) =~= calls::le32(dfid));
    lemma_num4(b, 0, dfid);
    assert(b.subrange(4, 4 + packed.len() as int) =~= packed);
    lemma_spelled(b, 4, name);
    assert(b.skip(4 + packed.len() as int) =~= rest);
}

/// The calls that are about a name in a directory: the directory's fid, the name, and behind them what
/// else there is to say.
pub proof fn names_are_sent_in_place(call: calls::CallView)
    ensures
        ({
            let b = calls::call_body(call);
            match call {
                CallOf::Lcreate { dfid, name, flags, mode, gid } => countable(name) ==> {
                    let end: int = 6 + vstd::utf8::encode_utf8(name).len() as int;
                    &&& num4(b, 0) == dfid && spelled(b, 4, name, end) && b.len() == end + 12
                    &&& num4(b, end) == flags && num4(b, end + 4) == mode && num4(b, end + 8) == gid
                },
                CallOf::Mkdir { dfid, name, mode, gid } => countable(name) ==> {
                    let end: int = 6 + vstd::utf8::encode_utf8(name).len() as int;
                    &&& num4(b, 0) == dfid && spelled(b, 4, name, end) && b.len() == end + 8
                    &&& num4(b, end) == mode && num4(b, end + 4) == gid
                },
                CallOf::Unlinkat { dfid, name, flags } => countable(name) ==> {
                    let end: int = 6 + vstd::utf8::encode_utf8(name).len() as int;
                    &&& num4(b, 0) == dfid && spelled(b, 4, name, end) && b.len() == end + 4
                    &&& num4(b, end) == flags
                },
                CallOf::Renameat { olddfid, oldname, newdfid, newname } => countable(oldname)
                    && countable(newname) ==> {
                    let mid: int = 6 + vstd::utf8::encode_utf8(oldname).len() as int;
                    &&& num4(b, 0) == olddfid && spelled(b, 4, oldname, mid)
                    &&& num4(b, mid) == newdfid && spelled(b, mid + 4, newname, b.len() as int)
                },
                CallOf::Symlink { dfid, name, target, gid } => countable(name) && countable(
                    target,
                ) ==> {
                    let mid: int = 6 + vstd::utf8::encode_utf8(name).len() as int;
                    let end: int = b.len() - 4;
                    &&& num4(b, 0) == dfid && spelled(b, 4, name, mid)
                    &&& spelled(b, mid, target, end) && num4(b, end) == gid
                },
                _ => true,
            }
        }),
{
    let b = calls::call_body(call);
    match call {
        CallOf::Lcreate { dfid, name, flags, mode, gid } => {
            if countable(name) {
                let end: int = 6 + vstd::utf8::encode_utf8(name).len() as int;
                let rest = calls::le32(flags) + calls::le32(mode) + calls::le32(gid);
                lemma_named(dfid, name, rest);
                assert(b =~= calls::le32(dfid) + ninep::str_bytes(name) + rest);
                ninep::lemma_le_bytes_len(flags as nat, 4);
                ninep::lemma_le_bytes_len(mode as nat, 4);
                ninep::lemma_le_bytes_len(gid as nat, 4);
                assert(b.subrange(end, end + 4) =~= b.skip(end).subrange(0, 4));
                assert(rest.subrange(0, 4) =~= calls::le32(flags));
                lemma_num4(b, end, flags);
                assert(b.subrange(end + 4, end + 8) =~= b.skip(end).subrange(4, 8));
                assert(rest.subrange(4, 8) =~= calls::le32(mode));
                lemma_num4(b, end + 4, mode);
                assert(b.subrange(end + 8, end + 12) =~= b.skip(end).subrange(8, 12));
                assert(rest.subrange(8, 12) =~= calls::le32(gid));
                lemma_num4(b, end + 8, gid);
            }
        },
        CallOf::Mkdir { dfid, name, mode, gid } => {
            if countable(name) {
                let end: int = 6 + vstd::utf8::encode_utf8(name).len() as int;
                let rest = calls::le32(mode) + calls::le32(gid);
                lemma_named(dfid, name, rest);
                assert(b =~= calls::le32(dfid) + ninep::str_bytes(name) + rest);
                ninep::lemma_le_bytes_len(mode as nat, 4);
                ninep::lemma_le_bytes_len(gid as nat, 4);
                assert(b.subrange(end, end + 4) =~= b.skip(end).subrange(0, 4));
                assert(rest.subrange(0, 4) =~= calls::le32(mode));
                lemma_num4(b, end, mode);
                assert(b.subrange(end + 4, end + 8) =~= b.skip(end).subrange(4, 8));
                assert(rest.subrange(4, 8) =~= calls::le32(gid));
                lemma_num4(b, end + 4, gid);
            }
        },
        CallOf::Unlinkat { dfid, name, flags } => {
            if countable(name) {
                let end: int = 6 + vstd::utf8::encode_utf8(name).len() as int;
                let rest = calls::le32(flags);
                lemma_named(dfid, name, rest);
                ninep::lemma_le_bytes_len(flags as nat, 4);
                assert(b.subrange(end, end + 4) =~= b.skip(end).subrange(0, 4));
                assert(rest.subrange(0, 4) =~= calls::le32(flags));
                lemma_num4(b, end, flags);
            }
        },
        CallOf::Renameat { olddfid, oldname, newdfid, newname } => {
            if countable(oldname) && countable(newname) {
                let mid: int = 6 + vstd::utf8::encode_utf8(oldname).len() as int;
                let packed = ninep::str_bytes(newname);
                let rest = calls::le32(newdfid) + packed;
                lemma_named(olddfid, oldname, rest);
                assert(b =~= calls::le32(olddfid) + ninep::str_bytes(oldname) + rest);
                ninep::lemma_le_bytes_len(newdfid as nat, 4);
                assert(b.subrange(mid, mid + 4) =~= b.skip(mid).subrange(0, 4));
                assert(rest.subrange(0, 4) =~= calls::le32(newdfid));
                lemma_num4(b, mid, newdfid);
                let end: int = mid + 4 + packed.len();
                assert(b.subrange(mid + 4, end) =~= b.skip(mid).subrange(4, rest.len() as int));
                assert(rest.subrange(4, rest.len() as int) =~= packed);
                lemma_spelled(b, mid + 4, newname);
            }
        },
        CallOf::Symlink { dfid, name, target, gid } => {
            if countable(name) && countable(target) {
                let mid: int = 6 + vstd::utf8::encode_utf8(name).len() as int;
                let packed = ninep::str_bytes(target);
                let rest = packed + calls::le32(gid);
                lemma_named(dfid, name, rest);
                assert(b =~= calls::le32(dfid) + ninep::str_bytes(name) + rest);
                ninep::lemma_le_bytes_len(gid as nat, 4);
                let end: int = mid + packed.len();
                assert(b.subrange(mid, end) =~= b.skip(mid).subrange(0, packed.len() as int));
                assert(rest.subrange(0, packed.len() as int) =~= packed);
                lemma_spelled(b, mid, target);
                assert(b.subrange(end, end + 4) =~= b.skip(mid).subrange(
                    packed.len() as int,
                    rest.len() as int,
                ));
                assert(rest.subrange(packed.len() as int, rest.len() as int) =~= calls::le32(gid));
                lemma_num4(b, end, gid);
            }
        },
        _ => {},
    }
}

/// A walk starts with the fid that it is from, the fid that it is for and the number of its names; the
/// names lie behind them, one after the other.
pub proof fn walks_are_sent_name_by_name(fid: u32, newfid: u32, names: Seq<Seq<char>>)
    requires
        names.len() < 65536,
    ensures
        ({
            let b = calls::call_body(CallOf::Walk { fid, newfid, names });
            &&& b.len() >= 10
            &&& num4(b, 0) == fid && num4(b, 4) == newfid && num2(b, 8) == names.len()
            &&& names.len() == 0 ==> b.len() == 10
            &&& names.len() > 0 && countable(names.last()) ==> {
                let front = calls::call_body(
                    CallOf::Walk { fid, newfid, names: names.drop_last() },
                );
                &&& front.len() < b.len() && b.subrange(10, front.len() as int) == front.skip(10)
                &&& spelled(b, front.len() as int, names.last(), b.len() as int)
            }
        }),
{
    let b = calls::call_body(CallOf::Walk { fid, newfid, names });
    let count = ninep::le_bytes(names.len(), 2);
    ninep::lemma_le_bytes_len(fid as nat, 4);
    ninep::lemma_le_bytes_len(newfid as nat, 4);
    ninep::lemma_le_bytes_len(names.len(), 2);
    assert(b.subrange(0, 4) =~= calls::le32(fid));
    lemma_num4(b, 0, fid);
    assert(b.subrange(4, 8) =~= calls::le32(newfid));
    lemma_num4(b, 4, newfid);
    assert(b.subrange(8, 10) =~= count);
    lemma_num2(b, 8, names.len());
    if names.len() > 0 && countable(names.last()) {
        let front = calls::call_body(CallOf::Walk { fid, newfid, names: names.drop_last() });
        let early = calls::names_bytes(names.drop_last());
        let packed = ninep::str_bytes(names.last());
        ninep::lemma_le_bytes_len(names.drop_last().len() % 65536, 2);
        ninep::lemma_le_bytes_len(vstd::utf8::encode_utf8(names.last()).len() as nat, 2);
        assert(b.skip(10) =~= early + packed);
        assert(front.skip(10) =~= early);
        assert(b.subrange(10, front.len() as int) =~= early);
        assert(b.subrange(front.len() as int, b.len() as int) =~= packed);
        lemma_spelled(b, front.len() as int, names.last());
    }
}

/// The walk's answer: how many qids there are, then the qids. It is the answer only if there is a qid
/// for each name.
pub proof fn walk_answers_are_read_in_place(
    fid: u32,
    newfid: u32,
    names: Seq<Seq<char>>,
    body: Seq<u8>,
)
    ensures
        match calls::answer_in(CallOf::Walk { fid, newfid, names }, body) {
            Some(AnswerOf::Qids(q)) => {
                &&& q.len() == names.len() == num2(body, 0)
                &&& 2 + 13 * q.len() <= body.len()
                &&& forall|i: int| 0 <= i < q.len() ==> qid_lies(body, 2 + 13 * i, #[trigger] q[i])
            },
            Some(_) => false,
            None => body.len() < 2 || num2(body, 0) != names.len() || body.len() < 2 + 13
                * names.len(),
        },
{
    if body.len() >= 2 {
        numbers_are_little_endian(body, 0);
    }
    if let Some(AnswerOf::Qids(q)) = calls::answer_in(CallOf::Walk { fid, newfid, names }, body) {
        assert forall|i: int| 0 <= i < q.len() implies qid_lies(body, 2 + 13 * i, #[trigger] q[i]) by {
            lemma_qid_lies(body, 2 + 13 * i);
        }
    }
}

proof fn lemma_qid_lies(s: Seq<u8>, at: int)
    requires
        0 <= at,
        at + 13 <= s.len(),
    ensures
        qid_lies(s, at, ninep::qid_at(s, at)),
{
    numbers_are_little_endian(s, at + 1);
    numbers_are_little_endian(s, at + 5);
}

/// That a body holds a file's attributes, as a server sends them: the mask of what is valid, the qid,
/// and the numbers in the order in which the protocol has them. What lies behind them is not read.
pub open spec fn attr_lies(b: Seq<u8>, a: Attr) -> bool {
    &&& b.len() >= 121
    &&& qid_lies(b, 8, a.qid)
    &&& a.mode == num4(b, 21) && a.uid == num4(b, 25) && a.gid == num4(b, 29)
    &&& a.nlink == num8(b, 33) && a.rdev == num8(b, 41) && a.size == num8(b, 49)
    &&& a.blksize == num8(b, 57) && a.blocks == num8(b, 65)
    &&& a.atime.0 == num8(b, 73) && a.atime.1 == num8(b, 81)
    &&& a.mtime.0 == num8(b, 89) && a.mtime.1 == num8(b, 97)
    &&& a.ctime.0 == num8(b, 105) && a.ctime.1 == num8(b, 113)
}

/// The attributes that a server sends are the attributes that are understood. Fewer bytes are no
/// attributes.
pub proof fn attributes_are_read_in_place(fid: u32, body: Seq<u8>, a: Attr)
    ensures
        attr_lies(body, a) ==> calls::answer_in(CallOf::Getattr { fid }, body) == Some(
            calls::AnswerView::Attr(a),
        ),
        body.len() < 121 ==> calls::answer_in(CallOf::Getattr { fid }, body) is None,
{
    if body.len() >= 121 {
        lemma_qid_lies(body, 8);
        numbers_are_little_endian(body, 21);
        numbers_are_little_endian(body, 25);
        numbers_are_little_endian(body, 29);
        numbers_are_little_endian(body, 33);
        numbers_are_little_endian(body, 41);
        numbers_are_little_endian(body, 49);
        numbers_are_little_endian(body, 57);
        numbers_are_little_endian(body, 65);
        numbers_are_little_endian(body, 73);
        numbers_are_little_endian(body, 81);
        numbers_are_little_endian(body, 89);
        numbers_are_little_endian(body, 97);
        numbers_are_little_endian(body, 105);
        numbers_are_little_endian(body, 113);
    }
}

/// That a body holds a file system's statistics, as a server sends them: the numbers in the order in
/// which the protocol has them, of which the type and the identity are not read.
pub open spec fn statistics_lie(b: Seq<u8>, st: StatFs) -> bool {
    &&& b.len() >= 60
    &&& st.bsize == num4(b, 4) && st.blocks == num8(b, 8) && st.bfree == num8(b, 16)
    &&& st.bavail == num8(b, 24) && st.files == num8(b, 32) && st.ffree == num8(b, 40)
    &&& st.namelen == num4(b, 56)
}

/// The statistics that a server sends are the statistics that are understood.
pub proof fn statistics_are_read_in_place(fid: u32, body: Seq<u8>, st: StatFs)
    ensures
        statistics_lie(body, st) ==> calls::answer_in(CallOf::Statfs { fid }, body) == Some(
            calls::AnswerView::Stat(st),
        ),
        body.len() < 60 ==> calls::answer_in(CallOf::Statfs { fid }, body) is None,
{
    if body.len() >= 60 {
        numbers_are_little_endian(body, 4);
        numbers_are_little_endian(body, 8);
        numbers_are_little_endian(body, 16);
        numbers_are_little_endian(body, 24);
        numbers_are_little_endian(body, 32);
        numbers_are_little_endian(body, 40);
        numbers_are_little_endian(body, 56);
    }
}

/// What the other answers say: the qid of what was opened, created or made, the number of bytes that
/// were taken, the target of a link, the bytes that were read. Where the bytes for that are not there,
/// there is no answer; the calls that only succeed need none.
pub proof fn answers_are_read_in_place(call: calls::CallView, body: Seq<u8>)
    ensures
        ({
            let a = calls::answer_in(call, body);
            match call {
                CallOf::Lopen { .. } | CallOf::Lcreate { .. } => if body.len() >= 17 {
                    a matches Some(AnswerOf::Opened(q, unit)) && qid_lies(body, 0, q) && unit
                        == num4(body, 13)
                } else {
                    a is None
                },
                CallOf::Mkdir { .. } | CallOf::Symlink { .. } => if body.len() >= 13 {
                    a matches Some(AnswerOf::Made(q)) && qid_lies(body, 0, q)
                } else {
                    a is None
                },
                CallOf::Read { .. } => if body.len() >= 4 {
                    a matches Some(AnswerOf::Data(d)) && {
                        &&& d.len() == if num4(body, 0) <= body.len() - 4 {
                            num4(body, 0)
                        } else {
                            body.len() - 4
                        }
                        &&& forall|i: int| 0 <= i < d.len() ==> #[trigger] d[i] == body[4 + i]
                    }
                } else {
                    a is None
                },
                CallOf::Write { .. } => if body.len() >= 4 {
                    a matches Some(AnswerOf::Count(n)) && n == num4(body, 0)
                } else {
                    a is None
                },
                CallOf::Readlink { .. } => if body.len() >= 2 && 2 + num2(body, 0) <= body.len() {
                    a matches Some(AnswerOf::Link(t)) && forall|text: Seq<char>, end: int|
                        spelled(body, 0, text, end) ==> t == text
                } else {
                    a is None
                },
                CallOf::Setattr { .. }
                | CallOf::Clunk { .. }
                | CallOf::Unlinkat { .. }
                | CallOf::Fsync { .. }
                | CallOf::Renameat { .. } => a matches Some(AnswerOf::Done),
                _ => true,
            }
        }),
{
    if body.len() >= 2 {
        numbers_are_little_endian(body, 0);
    }
    if body.len() >= 13 {
        lemma_qid_lies(body, 0);
    }
    if body.len() >= 17 {
        numbers_are_little_endian(body, 13);
    }
    if call is Readlink && ninep::has_str(body) {
        let t = ninep::text_of(ninep::str_payload(body));
        assert forall|text: Seq<char>, end: int| spelled(body, 0, text, end) implies t == text by {
            vstd::utf8::encode_utf8_valid_utf8(text);
            vstd::utf8::encode_utf8_decode_utf8(text);
        }
    }
}

/// That a directory entry lies at a place, and the next one would start at `end`.
pub open spec fn entry_lies(b: Seq<u8>, at: int, e: ninep::DirEntryView, end: int) -> bool {
    &&& qid_lies(b, at, e.qid) && e.offset == num8(b, at + 13) && e.typ == b[at + 21]
    &&& spelled(b, at + 22, e.name, end)
}

/// The entries of a directory read are read one after the other behind their count of bytes: the first
/// that lies there comes first, and those behind it follow. An entry that is cut short is left out, with
/// all behind it.
pub proof fn entries_are_read_in_turn(b: Seq<u8>, e: ninep::DirEntryView, end: int)
    requires
        entry_lies(b, 0, e, end),
    ensures
        ninep::entries_at(b) == seq![e] + ninep::entries_at(b.skip(end)),
{
    lemma_qid_lies(b, 0);
    numbers_are_little_endian(b, 13);
    let named = b.skip(22);
    numbers_are_little_endian(named, 0);
    assert(num2(named, 0) == num2(b, 22));
    assert(ninep::str_payload(named) =~= b.subrange(24, end));
    vstd::utf8::encode_utf8_valid_utf8(e.name);
    vstd::utf8::encode_utf8_decode_utf8(e.name);
}

/// See [`entries_are_read_in_turn`].
pub proof fn cut_entries_are_left_out(b: Seq<u8>)
    requires
        b.len() < 24 || b.len() < 24 + num2(b, 22),
    ensures
        ninep::entries_at(b).len() == 0,
{
    if b.len() >= 24 {
        let named = b.skip(22);
        numbers_are_little_endian(named, 0);
        assert(num2(named, 0) == num2(b, 22));
    }
}

/// The entries in the answer to a directory read are those in the bytes that are counted.
pub proof fn listings_are_counted(fid: u32, offset: u64, count: u32, body: Seq<u8>)
    ensures
        ({
            let a = calls::answer_in(CallOf::Readdir { fid, offset, count }, body);
            if body.len() >= 4 {
                let end: int = if num4(body, 0) <= body.len() - 4 {
                    4 + num4(body, 0)
                } else {
                    body.len() as int
                };
                a == Some(
                    calls::AnswerView::Entries(ninep::entries_at(body.subrange(4, end))),
                )
            } else {
                a is None
            }
        }),
{
    if body.len() >= 4 {
        numbers_are_little_endian(body, 0);
    }
}

/// How a call comes out: the server's answer to it; the error number that the server sends, or 5 where
/// it sends none; 5 where no answer comes, or one to another kind of request, or one cut short.
pub proof fn calls_come_out_as_the_server_says(call: calls::CallView, typ: u8, body: Seq<u8>)
    ensures
        ({
            let o = client::concluded(call, Some(FrameView { typ, body }));
            if typ == 7 {
                o matches Err(e) && e as u32 == refusal(body)
            } else if typ == calls::call_type(call) + 1 {
                match calls::answer_in(call, body) {
                    Some(a) => o matches Ok(x) && x == a,
                    None => o matches Err(e) && e == 5,
                }
            } else {
                o matches Err(e) && e == 5
            }
        }),
        client::concluded(call, None) matches Err(e) && e == 5,
{
    messages_have_their_numbers(call);
    lemma_refusal(body);
}

/// A connection opens with the message size that is asked for and the protocol that is spoken, under
/// the tag that no other request has.
pub proof fn versions_are_sent_in_place(msize: u32)
    ensures
        ({
            let b = client::version_body(msize);
            let f = frame::frame_bytes(ninep::TVERSION, client::NOTAG, b);
            &&& num4(b, 0) == msize && spelled(b, 4, "9P2000.L"@, b.len() as int)
            &&& num4(f, 0) == f.len() && f[4] == 100 && num2(f, 5) == 0xffff && f.skip(7) == b
            &&& ninep::RVERSION == 101
        }),
{
    let b = client::version_body(msize);
    let packed = ninep::str_bytes("9P2000.L"@);
    lemma_protocol_name();
    ninep::lemma_le_bytes_len(msize as nat, 4);
    ninep::lemma_le_bytes_len(vstd::utf8::encode_utf8("9P2000.L"@).len() as nat, 2);
    assert(b.subrange(0, 4) =~= calls::le32(msize));
    lemma_num4(b, 0, msize);
    assert(b.subrange(4, 4 + packed.len() as int) =~= packed);
    lemma_spelled(b, 4, "9P2000.L"@);
    frames_are_laid_out(ninep::TVERSION, client::NOTAG, b);
}

proof fn lemma_protocol_name()
    ensures
        countable("9P2000.L"@),
{
    reveal_strlit("9P2000.L");
    client::lemma_utf8_len("9P2000.L"@);
}

/// An attach names the fid that is to stand for the root, no authentication, the user by name and
/// number, and the export.
pub proof fn attaches_are_sent_in_place(fid: u32, uname: Seq<char>, aname: Seq<char>, n_uname: u32)
    requires
        countable(uname),
        countable(aname),
    ensures
        ({
            let b = client::attach_body(fid, uname, aname, n_uname);
            let mid: int = 10 + vstd::utf8::encode_utf8(uname).len() as int;
            let end: int = b.len() - 4;
            &&& num4(b, 0) == fid && num4(b, 4) == 0xffff_ffff
            &&& spelled(b, 8, uname, mid) && spelled(b, mid, aname, end)
            &&& num4(b, end) == n_uname
            &&& ninep::TATTACH == 104 && ninep::RATTACH == 105 && client::ROOT_FID == 1
        }),
{
    let b = client::attach_body(fid, uname, aname, n_uname);
    let first = ninep::str_bytes(uname);
    let second = ninep::str_bytes(aname);
    let mid: int = 10 + vstd::utf8::encode_utf8(uname).len() as int;
    let end: int = mid + second.len();
    ninep::lemma_le_bytes_len(fid as nat, 4);
    ninep::lemma_le_bytes_len(ninep::NOFID as nat, 4);
    ninep::lemma_le_bytes_len(n_uname as nat, 4);
    ninep::lemma_le_bytes_len(vstd::utf8::encode_utf8(uname).len() as nat, 2);
    assert(b.subrange(0, 4) =~= calls::le32(fid));
    lemma_num4(b, 0, fid);
    assert(b.subrange(4, 8) =~= calls::le32(ninep::NOFID));
    lemma_num4(b, 4, ninep::NOFID);
    assert(b.subrange(8, mid) =~= first);
    lemma_spelled(b, 8, uname);
    assert(b.subrange(mid, end) =~= second);
    lemma_spelled(b, mid, aname);
    assert(b.subrange(end, end + 4) =~= calls::le32(n_uname));
    lemma_num4(b, end, n_uname);
}

/// The error number that a refusal carries, or 5 where it carries none.
pub open spec fn refusal(body: Seq<u8>) -> int {
    if body.len() >= 4 {
        num4(body, 0)
    } else {
        5
    }
}

proof fn lemma_refusal(body: Seq<u8>)
    ensures
        client::error_in(body) as u32 == refusal(body),
{
    if body.len() >= 4 {
        numbers_are_little_endian(body, 0);
        let v = ninep::field(body, 0, 4) as u32;
        assert((v as i32) as u32 == v) by (bit_vector);
    }
}

/// A server is taken if it answers the version request with the protocol that is spoken and messages
/// of at least 4096 bytes. Each way not to do so is told apart.
pub proof fn servers_are_taken_or_refused(typ: u8, body: Seq<u8>, version: Seq<char>, end: int)
    ensures
        ({
            let r = client::accepted(Some(FrameView { typ, body }));
            if typ == 7 {
                r matches Err(client::ConnectErrorOf::VersionFailed(e)) && e as u32 == refusal(body)
            } else if typ != 101 {
                r matches Err(client::ConnectErrorOf::NoVersion)
            } else if body.len() < 6 || body.len() < 6 + num2(body, 4) {
                r matches Err(client::ConnectErrorOf::ShortVersion)
            } else if spelled(body, 4, version, end) {
                if version != "9P2000.L"@ {
                    r matches Err(client::ConnectErrorOf::WrongVersion(v)) && v == version
                } else if num4(body, 0) < 4096 {
                    r matches Err(client::ConnectErrorOf::TinyMsize(n)) && n == num4(body, 0)
                } else {
                    r matches Ok(n) && n == num4(body, 0)
                }
            } else {
                true
            }
        }),
        client::accepted(None) matches Err(client::ConnectErrorOf::VersionFailed(e)) && e == 5,
{
    lemma_refusal(body);
    if body.len() >= 6 {
        let named = body.skip(4);
        numbers_are_little_endian(body, 0);
        numbers_are_little_endian(named, 0);
        assert(num2(named, 0) == num2(body, 4));
        if spelled(body, 4, version, end) {
            assert(ninep::str_payload(named) =~= body.subrange(6, end));
            vstd::utf8::encode_utf8_valid_utf8(version);
            vstd::utf8::encode_utf8_decode_utf8(version);
        }
    }
}

/// Messages are as large as was asked for, or as the server agreed to where that is less.
pub proof fn message_size_is_what_both_take(asked: u32, n: u32)
    ensures
        client::agreed(asked, n) <= asked,
        client::agreed(asked, n) <= n,
        client::agreed(asked, n) == asked || client::agreed(asked, n) == n,
{
}

/// The root is what the server attached. Each way not to be attached is told apart.
pub proof fn attaches_give_the_root(typ: u8, body: Seq<u8>)
    ensures
        ({
            let r = client::attached(Some(FrameView { typ, body }));
            if typ == 7 {
                r matches Err(client::ConnectErrorOf::AttachFailed(e)) && e as u32 == refusal(body)
            } else if typ != 105 {
                r matches Err(client::ConnectErrorOf::AttachFailed(e)) && e == 5
            } else if body.len() < 13 {
                r matches Err(client::ConnectErrorOf::ShortAttach)
            } else {
                r matches Ok(q) && qid_lies(body, 0, q)
            }
        }),
        client::attached(None) matches Err(client::ConnectErrorOf::AttachFailed(e)) && e == 5,
{
    lemma_refusal(body);
    if body.len() >= 13 {
        lemma_qid_lies(body, 0);
    }
}

/// A message that arrives goes to the request that waits under the tag it carries, without the tag,
/// and that request waits no more. A message that nobody waits for is passed over.
pub proof fn messages_go_by_their_tag(frames: Seq<FrameView>, waiting: Set<u16>)
    requires
        frames.len() > 0,
        frames[0].body.len() >= 2,
    ensures
        ({
            let tag = num2(frames[0].body, 0) as u16;
            let later = client::routed(frames.skip(1), waiting.remove(tag));
            let d = client::routed(frames, waiting);
            &&& client::still_waiting(frames, waiting) == client::still_waiting(
                frames.skip(1),
                waiting.remove(tag),
            )
            &&& if waiting.contains(tag) {
                &&& d.len() == 1 + later.len() && d.skip(1) == later
                &&& d[0].tag == tag && d[0].frame.typ == frames[0].typ
                &&& d[0].frame.body == frames[0].body.skip(2)
            } else {
                d == later
            }
        }),
{
    numbers_are_little_endian(frames[0].body, 0);
    let tag = client::tag_of(frames[0]);
    assert(frames.skip(1) =~= frames.drop_first());
    let later = client::routed(frames.drop_first(), waiting.remove(tag));
    if waiting.contains(tag) {
        assert(client::routed(frames, waiting).skip(1) =~= later);
    }
}

/// Fids are handed out in turn.
pub proof fn fids_are_handed_out_in_turn(fid: u32)
    ensures
        fid < u32::MAX ==> client::next_fid(fid) == fid + 1,
        fid == u32::MAX ==> client::next_fid(fid) == 0,
{
}

/// What a stalled call is named after: its own kind.
pub proof fn calls_are_named_after_their_kind(call: calls::CallView)
    ensures
        ninep::msg_name(calls::call_type(call)) == match call {
            CallOf::Statfs { .. } => "Tstatfs"@,
            CallOf::Lopen { .. } => "Tlopen"@,
            CallOf::Lcreate { .. } => "Tlcreate"@,
            CallOf::Symlink { .. } => "Tsymlink"@,
            CallOf::Readlink { .. } => "Treadlink"@,
            CallOf::Getattr { .. } => "Tgetattr"@,
            CallOf::Setattr { .. } => "Tsetattr"@,
            CallOf::Readdir { .. } => "Treaddir"@,
            CallOf::Fsync { .. } => "Tfsync"@,
            CallOf::Mkdir { .. } => "Tmkdir"@,
            CallOf::Renameat { .. } => "Trenameat"@,
            CallOf::Unlinkat { .. } => "Tunlinkat"@,
            CallOf::Walk { .. } => "Twalk"@,
            CallOf::Read { .. } => "Tread"@,
            CallOf::Write { .. } => "Twrite"@,
            CallOf::Clunk { .. } => "Tclunk"@,
        },
{
}

/// The fid that is attached is the one that a client has for the root, and no other fid that the client
/// hands out is the same until they wrap round.
pub proof fn the_root_is_attached_at_its_own_fid(
    msize: u32,
    before: client::ClientView,
    after: client::ClientView,
    r: client::Request,
    aname: Seq<char>,
    n_uname: u32,
)
    requires
        client::attaching(before, after, r, aname, n_uname),
        countable(aname),
    ensures
        ({
            let c = client::fresh_client(msize);
            let b = r.frame@.skip(7);
            &&& num4(b, 0) == c.root_fid && num4(b, 4) == 0xffff_ffff
            &&& spelled(b, 8, "user"@, 14) && spelled(b, 14, aname, b.len() - 4)
            &&& num4(b, b.len() - 4) == n_uname
            &&& num4(r.frame@, 0) == r.frame@.len() && r.frame@[4] == 104 && r.expect == 105
            &&& num2(r.frame@, 5) == r.tag
            &&& c.next_fid == c.root_fid + 1 && c.next_tag == 0 && c.msize == msize
            &&& c.acc.len() == 0 && forall|t: u16| !#[trigger] c.waiting.contains(t)
        }),
{
    reveal_strlit("user");
    let b = client::attach_body(client::ROOT_FID, "user"@, aname, n_uname);
    let utf8 = vstd::utf8::encode_utf8("user"@);
    vstd::utf8::is_ascii_chars_encode_utf8("user"@);
    assert(utf8.len() == 4);
    attaches_are_sent_in_place(client::ROOT_FID, "user"@, aname, n_uname);
    frames_are_laid_out(ninep::TATTACH, r.tag, b);
}

} // verus!
