//! The 9p2000.L wire format: message type constants, a little-endian writer and reader, the `Qid`,
//! and decoders for the attribute and directory bodies.
//!
//! 9p is little-endian throughout, and a string is `len[2] bytes`. A whole message on the wire is
//! `size[4] type[1] tag[2] body...`, where `size` counts itself. This module deals with the `body`;
//! the framing lives in `client`.

use vstd::prelude::*;
use vstd::slice::slice_subrange;

verus! {

// Message types: a response is the request's number plus one.
pub const TLERROR: u8 = 6;
pub const RLERROR: u8 = 7;
pub const TSTATFS: u8 = 8;
pub const RSTATFS: u8 = 9;
pub const TLOPEN: u8 = 12;
pub const RLOPEN: u8 = 13;
pub const TLCREATE: u8 = 14;
pub const RLCREATE: u8 = 15;
pub const TSYMLINK: u8 = 16;
pub const RSYMLINK: u8 = 17;
pub const TREADLINK: u8 = 22;
pub const RREADLINK: u8 = 23;
pub const TGETATTR: u8 = 24;
pub const RGETATTR: u8 = 25;
pub const TSETATTR: u8 = 26;
pub const RSETATTR: u8 = 27;
pub const TREADDIR: u8 = 40;
pub const RREADDIR: u8 = 41;
pub const TFSYNC: u8 = 50;
pub const RFSYNC: u8 = 51;
pub const TMKDIR: u8 = 72;
pub const RMKDIR: u8 = 73;
pub const TRENAMEAT: u8 = 74;
pub const RRENAMEAT: u8 = 75;
pub const TUNLINKAT: u8 = 76;
pub const RUNLINKAT: u8 = 77;
pub const TVERSION: u8 = 100;
pub const RVERSION: u8 = 101;
pub const TATTACH: u8 = 104;
pub const RATTACH: u8 = 105;
pub const TFLUSH: u8 = 108;
pub const RFLUSH: u8 = 109;
pub const TWALK: u8 = 110;
pub const RWALK: u8 = 111;
pub const TREAD: u8 = 116;
pub const RREAD: u8 = 117;
pub const TWRITE: u8 = 118;
pub const RWRITE: u8 = 119;
pub const TCLUNK: u8 = 120;
pub const RCLUNK: u8 = 121;

// Tsetattr `valid` bits.
pub const SETATTR_MODE: u32 = 0x0001;
pub const SETATTR_UID: u32 = 0x0002;
pub const SETATTR_GID: u32 = 0x0004;
pub const SETATTR_SIZE: u32 = 0x0008;
pub const SETATTR_ATIME: u32 = 0x0010;
pub const SETATTR_MTIME: u32 = 0x0020;
pub const SETATTR_ATIME_SET: u32 = 0x0080;
pub const SETATTR_MTIME_SET: u32 = 0x0100;

/// Tgetattr request mask: everything.
pub const GETATTR_ALL: u64 = 0x0000_3fff;

/// The fid that stands for "no fid".
pub const NOFID: u32 = 0xffff_ffff;

/// A 9p unique file id, 13 bytes on the wire. `path` is unique per file.
#[derive(Clone, Copy, Debug, PartialEq, Eq)]
pub struct Qid {
    pub typ: u8,
    pub version: u32,
    pub path: u64,
}

/// The part of an Rgetattr body that a mount needs (Linux stat-like attributes).
#[derive(Clone, Copy, Debug, PartialEq, Eq)]
pub struct Attr {
    pub qid: Qid,
    pub mode: u32,
    pub uid: u32,
    pub gid: u32,
    pub nlink: u64,
    pub rdev: u64,
    pub size: u64,
    pub blksize: u64,
    pub blocks: u64,
    pub atime: (u64, u64),
    pub mtime: (u64, u64),
    pub ctime: (u64, u64),
}

/// One Rreaddir entry.
#[derive(Clone, Debug, PartialEq, Eq)]
pub struct DirEntry {
    pub qid: Qid,
    pub offset: u64,
    pub typ: u8,
    pub name: String,
}

/// What a `DirEntry` stands for: the same fields, with the name as its characters.
pub struct DirEntryView {
    pub qid: Qid,
    pub offset: u64,
    pub typ: u8,
    pub name: Seq<char>,
}

impl View for DirEntry {
    type V = DirEntryView;

    open spec fn view(&self) -> DirEntryView {
        DirEntryView { qid: self.qid, offset: self.offset, typ: self.typ, name: self.name@ }
    }
}

/// The views of a list of directory entries.
pub open spec fn entry_views(entries: Seq<DirEntry>) -> Seq<DirEntryView> {
    entries.map_values(|e: DirEntry| e@)
}

/// The little-endian encoding of the low `n` bytes of `v`.
pub open spec fn le_bytes(v: nat, n: nat) -> Seq<u8>
    decreases n,
{
    if n == 0 {
        Seq::empty()
    } else {
        seq![(v % 256) as u8] + le_bytes(v / 256, (n - 1) as nat)
    }
}

/// The number that `s` encodes, little-endian.
pub open spec fn le_value(s: Seq<u8>) -> nat
    decreases s.len(),
{
    if s.len() == 0 {
        0
    } else {
        s[0] as nat + 256 * le_value(s.drop_first())
    }
}

/// How many values `n` bytes can hold.
pub open spec fn byte_range(n: nat) -> nat
    decreases n,
{
    if n == 0 {
        1
    } else {
        256 * byte_range((n - 1) as nat)
    }
}

/// The number in the `n` bytes of `s` that start at `at`.
pub open spec fn field(s: Seq<u8>, at: int, n: int) -> nat {
    le_value(s.subrange(at, at + n))
}

/// The qid in the 13 bytes of `s` that start at `at`.
pub open spec fn qid_at(s: Seq<u8>, at: int) -> Qid {
    Qid { typ: s[at], version: field(s, at + 1, 4) as u32, path: field(s, at + 5, 8) as u64 }
}

/// The 13 bytes of a qid.
pub open spec fn qid_bytes(q: Qid) -> Seq<u8> {
    seq![q.typ] + le_bytes(q.version as nat, 4) + le_bytes(q.path as nat, 8)
}

/// A string on the wire: its UTF-8 length in two bytes (of which only the low 16 bits fit), then
/// the UTF-8 bytes.
pub open spec fn str_bytes(s: Seq<char>) -> Seq<u8> {
    le_bytes(vstd::utf8::encode_utf8(s).len() % 65536, 2) + vstd::utf8::encode_utf8(s)
}

/// What `String::from_utf8_lossy` makes of `bytes`.
pub uninterp spec fn utf8_lossy(bytes: Seq<u8>) -> Seq<char>;

/// `String::from_utf8_lossy`: the text that the bytes encode, with a replacement character for each
/// ill-formed part. The result is a function of the bytes, and on well-formed UTF-8 it is exactly
/// the text that they encode.
#[verifier::external_body]
fn from_utf8_lossy(bytes: &[u8]) -> (s: String)
    ensures
        s@ == utf8_lossy(bytes@),
        vstd::utf8::valid_utf8(bytes@) ==> s@ == vstd::utf8::decode_utf8(bytes@),
{
    String::from_utf8_lossy(bytes).into_owned()
}

/// The text that `bytes` encode, with a replacement character for each ill-formed part.
pub open spec fn text_of(bytes: Seq<u8>) -> Seq<char> {
    if vstd::utf8::valid_utf8(bytes) {
        vstd::utf8::decode_utf8(bytes)
    } else {
        utf8_lossy(bytes)
    }
}

/// The text of a name that the kernel gave as bytes.
pub fn name_text(bytes: &[u8]) -> (s: String)
    ensures
        s@ == text_of(bytes@),
{
    from_utf8_lossy(bytes)
}

pub proof fn lemma_le_bytes_len(v: nat, n: nat)
    ensures
        le_bytes(v, n).len() == n,
    decreases n,
{
    if n > 0 {
        lemma_le_bytes_len(v / 256, (n - 1) as nat);
    }
}

pub proof fn lemma_le_value_bound(s: Seq<u8>)
    ensures
        le_value(s) < byte_range(s.len()),
    decreases s.len(),
{
    if s.len() > 0 {
        lemma_le_value_bound(s.drop_first());
    }
}

pub proof fn lemma_byte_ranges()
    ensures
        byte_range(1) == 0x100,
        byte_range(2) == 0x1_0000,
        byte_range(4) == 0x1_0000_0000,
        byte_range(8) == 0x1_0000_0000_0000_0000,
{
    reveal_with_fuel(byte_range, 9);
}

/// Reading back a little-endian number gives the number that was written, if it fits.
pub proof fn le_round_trip(v: nat, n: nat)
    requires
        v < byte_range(n),
    ensures
        le_value(le_bytes(v, n)) == v,
    decreases n,
{
    if n > 0 {
        let tail = le_bytes(v / 256, (n - 1) as nat);
        assert(v / 256 < byte_range((n - 1) as nat));
        le_round_trip(v / 256, (n - 1) as nat);
        lemma_le_bytes_len(v / 256, (n - 1) as nat);
        assert(le_bytes(v, n).drop_first() =~= tail);
    }
}

/// Little-endian writer for building a message body.
pub struct W {
    pub buf: Vec<u8>,
}

impl Default for W {
    fn default() -> (w: Self)
        ensures
            w.buf@ == Seq::<u8>::empty(),
    {
        W { buf: Vec::new() }
    }
}

/// Appends the low `n` bytes of `v`, little-endian.
fn push_le(buf: &mut Vec<u8>, v: u64, n: usize)
    ensures
        final(buf)@ == old(buf)@ + le_bytes(v as nat, n as nat),
{
    let mut left: usize = n;
    let mut rest: u64 = v;
    let ghost all = buf@ + le_bytes(v as nat, n as nat);
    while left > 0
        invariant
            all == buf@ + le_bytes(rest as nat, left as nat),
        decreases left,
    {
        let low: u8 = (rest % 256) as u8;
        proof {
            let tail = le_bytes(rest as nat / 256, (left - 1) as nat);
            assert(le_bytes(rest as nat, left as nat) == seq![low] + tail);
            assert(buf@.push(low) + tail =~= buf@ + (seq![low] + tail));
        }
        buf.push(low);
        rest = rest / 256;
        left = left - 1;
    }
    assert(buf@ + Seq::<u8>::empty() =~= buf@);
}

/// Appends a copy of `b`.
pub(crate) fn push_slice(buf: &mut Vec<u8>, b: &[u8])
    ensures
        final(buf)@ == old(buf)@ + b@,
{
    let ghost before = buf@;
    buf.extend_from_slice(b);
    assert(buf@ =~= before + b@);
}

impl W {
    pub fn new() -> (w: Self)
        ensures
            w.buf@ == Seq::<u8>::empty(),
    {
        W { buf: Vec::new() }
    }

    pub fn u8(&mut self, v: u8) -> (r: &mut Self)
        ensures
            r.buf@ == old(self).buf@.push(v),
            *final(self) == *final(r),
    {
        self.buf.push(v);
        self
    }

    pub fn u16(&mut self, v: u16) -> (r: &mut Self)
        ensures
            r.buf@ == old(self).buf@ + le_bytes(v as nat, 2),
            *final(self) == *final(r),
    {
        push_le(&mut self.buf, v as u64, 2);
        self
    }

    pub fn u32(&mut self, v: u32) -> (r: &mut Self)
        ensures
            r.buf@ == old(self).buf@ + le_bytes(v as nat, 4),
            *final(self) == *final(r),
    {
        push_le(&mut self.buf, v as u64, 4);
        self
    }

    pub fn u64(&mut self, v: u64) -> (r: &mut Self)
        ensures
            r.buf@ == old(self).buf@ + le_bytes(v as nat, 8),
            *final(self) == *final(r),
    {
        push_le(&mut self.buf, v, 8);
        self
    }

    pub fn str(&mut self, s: &str) -> (r: &mut Self)
        ensures
            r.buf@ == old(self).buf@ + str_bytes(s@),
            *final(self) == *final(r),
    {
        let b = s.as_bytes();
        let n: usize = b.len();
        let low: u16 = (n % 65536) as u16;
        let ghost before = self.buf@;
        push_le(&mut self.buf, low as u64, 2);
        push_slice(&mut self.buf, b);
        assert(self.buf@ =~= before + str_bytes(s@));
        self
    }

    pub fn bytes(&mut self, b: &[u8]) -> (r: &mut Self)
        ensures
            r.buf@ == old(self).buf@ + b@,
            *final(self) == *final(r),
    {
        push_slice(&mut self.buf, b);
        self
    }
}

/// The number that at most eight bytes encode, little-endian.
fn value_le(b: &[u8]) -> (v: u64)
    requires
        b@.len() <= 8,
    ensures
        v == le_value(b@),
        v < byte_range(b@.len()),
{
    let n: usize = b.len();
    let mut i: usize = n;
    let mut v: u64 = 0;
    proof {
        lemma_byte_ranges();
    }
    while i > 0
        invariant
            i <= n,
            n == b@.len(),
            n <= 8,
            byte_range(8) == 0x1_0000_0000_0000_0000,
            v == le_value(b@.subrange(i as int, n as int)),
        decreases i,
    {
        let ghost here = b@.subrange(i - 1, n as int);
        assert(here.drop_first() =~= b@.subrange(i as int, n as int));
        proof {
            lemma_le_value_bound(here);
            lemma_byte_range_monotonic(here.len(), 8);
            assert(le_value(here) == b@[i - 1] as nat + 256 * v);
        }
        i = i - 1;
        v = v * 256 + b[i] as u64;
    }
    assert(b@.subrange(0, n as int) =~= b@);
    proof {
        lemma_le_value_bound(b@);
    }
    v
}

proof fn lemma_byte_range_monotonic(m: nat, n: nat)
    requires
        m <= n,
    ensures
        byte_range(m) <= byte_range(n),
    decreases n,
{
    if m < n {
        lemma_byte_range_monotonic(m, (n - 1) as nat);
    }
}

/// Little-endian reader over a message body. Each getter answers `None` when too few bytes are left.
pub struct R<'a> {
    b: &'a [u8],
    pos: usize,
}

impl<'a> R<'a> {
    #[verifier::type_invariant]
    spec fn in_bounds(self) -> bool {
        self.pos <= self.b@.len()
    }

    /// The bytes that have not been read yet.
    pub closed spec fn rest(&self) -> Seq<u8> {
        self.b@.subrange(self.pos as int, self.b@.len() as int)
    }

    pub fn new(b: &'a [u8]) -> (r: Self)
        ensures
            r.rest() == b@,
    {
        assert(b@.subrange(0, b@.len() as int) =~= b@);
        R { b, pos: 0 }
    }

    pub fn remaining(&self) -> (n: usize)
        ensures
            n == self.rest().len(),
    {
        proof {
            use_type_invariant(self);
        }
        self.b.len() - self.pos
    }

    fn take(&mut self, n: usize) -> (r: Option<&'a [u8]>)
        ensures
            match r {
                Some(s) => {
                    &&& n <= old(self).rest().len()
                    &&& s@ == old(self).rest().subrange(0, n as int)
                    &&& final(self).rest() == old(self).rest().skip(n as int)
                },
                None => n > old(self).rest().len() && final(self).rest() == old(self).rest(),
            },
    {
        proof {
            use_type_invariant(&*self);
        }
        if n > self.b.len() - self.pos {
            return None;
        }
        let s = slice_subrange(self.b, self.pos, self.pos + n);
        let ghost before = self.rest();
        self.pos = self.pos + n;
        assert(s@ =~= before.subrange(0, n as int));
        assert(self.rest() =~= before.skip(n as int));
        Some(s)
    }

    pub fn u8(&mut self) -> (r: Option<u8>)
        ensures
            match r {
                Some(v) => {
                    &&& old(self).rest().len() >= 1
                    &&& v == old(self).rest()[0]
                    &&& final(self).rest() == old(self).rest().skip(1)
                },
                None => old(self).rest().len() < 1 && final(self).rest() == old(self).rest(),
            },
    {
        match self.take(1) {
            Some(s) => Some(s[0]),
            None => None,
        }
    }

    pub fn u16(&mut self) -> (r: Option<u16>)
        ensures
            match r {
                Some(v) => {
                    &&& old(self).rest().len() >= 2
                    &&& v == field(old(self).rest(), 0, 2)
                    &&& final(self).rest() == old(self).rest().skip(2)
                },
                None => old(self).rest().len() < 2 && final(self).rest() == old(self).rest(),
            },
    {
        proof {
            lemma_byte_ranges();
        }
        match self.take(2) {
            Some(s) => Some(value_le(s) as u16),
            None => None,
        }
    }

    pub fn u32(&mut self) -> (r: Option<u32>)
        ensures
            match r {
                Some(v) => {
                    &&& old(self).rest().len() >= 4
                    &&& v == field(old(self).rest(), 0, 4)
                    &&& final(self).rest() == old(self).rest().skip(4)
                },
                None => old(self).rest().len() < 4 && final(self).rest() == old(self).rest(),
            },
    {
        proof {
            lemma_byte_ranges();
        }
        match self.take(4) {
            Some(s) => Some(value_le(s) as u32),
            None => None,
        }
    }

    pub fn u64(&mut self) -> (r: Option<u64>)
        ensures
            match r {
                Some(v) => {
                    &&& old(self).rest().len() >= 8
                    &&& v == field(old(self).rest(), 0, 8)
                    &&& final(self).rest() == old(self).rest().skip(8)
                },
                None => old(self).rest().len() < 8 && final(self).rest() == old(self).rest(),
            },
    {
        match self.take(8) {
            Some(s) => Some(value_le(s)),
            None => None,
        }
    }

    pub fn str(&mut self) -> (r: Option<String>)
        ensures
            match r {
                Some(s) => {
                    &&& has_str(old(self).rest())
                    &&& s@ == text_of(str_payload(old(self).rest()))
                    &&& final(self).rest() == old(self).rest().skip(str_len(old(self).rest()))
                },
                None => {
                    &&& !has_str(old(self).rest())
                    &&& final(self).rest() == old(self).rest().skip(
                        if old(self).rest().len() < 2 {
                            0
                        } else {
                            2
                        },
                    )
                },
            },
    {
        let ghost all = self.rest();
        let n: usize = match self.u16() {
            Some(n) => n as usize,
            None => {
                assert(all.skip(0) =~= all);
                return None;
            },
        };
        match self.take(n) {
            Some(s) => {
                assert(s@ =~= str_payload(all));
                assert(self.rest() =~= all.skip(str_len(all)));
                Some(from_utf8_lossy(s))
            },
            None => None,
        }
    }

    pub fn qid(&mut self) -> (r: Option<Qid>)
        ensures
            match r {
                Some(q) => {
                    &&& old(self).rest().len() >= 13
                    &&& q == qid_at(old(self).rest(), 0)
                    &&& final(self).rest() == old(self).rest().skip(13)
                },
                None => {
                    &&& old(self).rest().len() < 13
                    &&& final(self).rest() == old(self).rest().skip(
                        if old(self).rest().len() < 1 {
                            0
                        } else if old(self).rest().len() < 5 {
                            1
                        } else {
                            5
                        },
                    )
                },
            },
    {
        let ghost all = self.rest();
        let typ: u8 = match self.u8() {
            Some(v) => v,
            None => {
                assert(all.skip(0) =~= all);
                return None;
            },
        };
        let version: u32 = match self.u32() {
            Some(v) => v,
            None => {
                return None;
            },
        };
        assert(all.skip(1).subrange(0, 4) =~= all.subrange(1, 5));
        assert(self.rest() =~= all.skip(5));
        let path: u64 = match self.u64() {
            Some(v) => v,
            None => {
                return None;
            },
        };
        assert(all.skip(5).subrange(0, 8) =~= all.subrange(5, 13));
        assert(self.rest() =~= all.skip(13));
        Some(Qid { typ, version, path })
    }
}

/// How many bytes the string at the front of `s` takes, its length field included.
pub open spec fn str_len(s: Seq<u8>) -> int {
    2 + field(s, 0, 2) as int
}

/// Whether `s` begins with a whole string.
pub open spec fn has_str(s: Seq<u8>) -> bool {
    s.len() >= 2 && s.len() >= str_len(s)
}

/// The bytes of the string at the front of `s`.
pub open spec fn str_payload(s: Seq<u8>) -> Seq<u8> {
    s.subrange(2, str_len(s))
}

/// The attributes in an Rgetattr body: valid[8] qid[13] mode[4] uid[4] gid[4] nlink[8] rdev[8]
/// size[8] blksize[8] blocks[8], then seconds[8] and nanoseconds[8] of atime, mtime and ctime.
pub open spec fn attr_at(s: Seq<u8>) -> Attr {
    Attr {
        qid: qid_at(s, 8),
        mode: field(s, 21, 4) as u32,
        uid: field(s, 25, 4) as u32,
        gid: field(s, 29, 4) as u32,
        nlink: field(s, 33, 8) as u64,
        rdev: field(s, 41, 8) as u64,
        size: field(s, 49, 8) as u64,
        blksize: field(s, 57, 8) as u64,
        blocks: field(s, 65, 8) as u64,
        atime: (field(s, 73, 8) as u64, field(s, 81, 8) as u64),
        mtime: (field(s, 89, 8) as u64, field(s, 97, 8) as u64),
        ctime: (field(s, 105, 8) as u64, field(s, 113, 8) as u64),
    }
}

/// How many bytes of an Rgetattr body `attr_at` reads.
pub const ATTR_LEN: usize = 121;

/// Parses an Rgetattr body. What follows ctime (btime, gen, data_version) is not looked at.
pub fn parse_getattr(body: &[u8]) -> (r: Option<Attr>)
    ensures
        r == (if body@.len() >= ATTR_LEN {
            Some(attr_at(body@))
        } else {
            None
        }),
{
    let mut r = R::new(body);
    let ghost s = body@;
    let _valid: u64 = r.u64()?;
    let qid: Qid = r.qid()?;
    proof {
        lemma_field_skip(s, 8, 1, 4);
        lemma_field_skip(s, 8, 5, 8);
        assert(r.rest() =~= s.skip(21));
    }
    let mode: u32 = r.u32()?;
    proof {
        lemma_field_skip(s, 21, 0, 4);
        assert(r.rest() =~= s.skip(25));
    }
    let uid: u32 = r.u32()?;
    proof {
        lemma_field_skip(s, 25, 0, 4);
        assert(r.rest() =~= s.skip(29));
    }
    let gid: u32 = r.u32()?;
    proof {
        lemma_field_skip(s, 29, 0, 4);
        assert(r.rest() =~= s.skip(33));
    }
    let nlink: u64 = r.u64()?;
    proof {
        lemma_field_skip(s, 33, 0, 8);
        assert(r.rest() =~= s.skip(41));
    }
    let rdev: u64 = r.u64()?;
    proof {
        lemma_field_skip(s, 41, 0, 8);
        assert(r.rest() =~= s.skip(49));
    }
    let size: u64 = r.u64()?;
    proof {
        lemma_field_skip(s, 49, 0, 8);
        assert(r.rest() =~= s.skip(57));
    }
    let blksize: u64 = r.u64()?;
    proof {
        lemma_field_skip(s, 57, 0, 8);
        assert(r.rest() =~= s.skip(65));
    }
    let blocks: u64 = r.u64()?;
    proof {
        lemma_field_skip(s, 65, 0, 8);
        assert(r.rest() =~= s.skip(73));
    }
    let atime_sec: u64 = r.u64()?;
    proof {
        lemma_field_skip(s, 73, 0, 8);
        assert(r.rest() =~= s.skip(81));
    }
    let atime_nsec: u64 = r.u64()?;
    proof {
        lemma_field_skip(s, 81, 0, 8);
        assert(r.rest() =~= s.skip(89));
    }
    let mtime_sec: u64 = r.u64()?;
    proof {
        lemma_field_skip(s, 89, 0, 8);
        assert(r.rest() =~= s.skip(97));
    }
    let mtime_nsec: u64 = r.u64()?;
    proof {
        lemma_field_skip(s, 97, 0, 8);
        assert(r.rest() =~= s.skip(105));
    }
    let ctime_sec: u64 = r.u64()?;
    proof {
        lemma_field_skip(s, 105, 0, 8);
        assert(r.rest() =~= s.skip(113));
    }
    let ctime_nsec: u64 = r.u64()?;
    proof {
        lemma_field_skip(s, 113, 0, 8);
    }
    Some(
        Attr {
            qid,
            mode,
            uid,
            gid,
            nlink,
            rdev,
            size,
            blksize,
            blocks,
            atime: (atime_sec, atime_nsec),
            mtime: (mtime_sec, mtime_nsec),
            ctime: (ctime_sec, ctime_nsec),
        },
    )
}

/// A field of what is left after `skip` bytes is the field that many bytes further on.
pub proof fn lemma_field_skip(s: Seq<u8>, skip: int, at: int, n: int)
    requires
        0 <= skip,
        0 <= at,
        0 <= n,
        skip + at + n <= s.len(),
    ensures
        field(s.skip(skip), at, n) == field(s, skip + at, n),
{
    assert(s.skip(skip).subrange(at, at + n) =~= s.subrange(skip + at, skip + at + n));
}

/// Whether `s` begins with a whole directory entry: qid[13] offset[8] type[1] name[s].
pub open spec fn has_entry(s: Seq<u8>) -> bool {
    s.len() >= 22 && has_str(s.skip(22))
}

/// How many bytes the directory entry at the front of `s` takes.
pub open spec fn entry_len(s: Seq<u8>) -> int {
    22 + str_len(s.skip(22))
}

/// The directory entry at the front of `s`.
pub open spec fn entry_at(s: Seq<u8>) -> DirEntryView {
    DirEntryView {
        qid: qid_at(s, 0),
        offset: field(s, 13, 8) as u64,
        typ: s[21],
        name: text_of(str_payload(s.skip(22))),
    }
}

/// The whole directory entries at the front of `s`, one after the other.
pub open spec fn entries_at(s: Seq<u8>) -> Seq<DirEntryView>
    decreases s.len(),
{
    if has_entry(s) {
        seq![entry_at(s)] + entries_at(s.skip(entry_len(s)))
    } else {
        Seq::empty()
    }
}

/// Parses the packed data of an Rreaddir body into entries, up to the first that is cut short.
pub fn parse_readdir(data: &[u8]) -> (out: Vec<DirEntry>)
    ensures
        entry_views(out@) == entries_at(data@),
{
    let mut r = R::new(data);
    let mut out: Vec<DirEntry> = Vec::new();
    let ghost all = entries_at(data@);
    assert(entry_views(out@) + all =~= all);
    loop
        invariant_except_break
            all == entry_views(out@) + entries_at(r.rest()),
        ensures
            all == entry_views(out@),
        decreases r.rest().len(),
    {
        let ghost s = r.rest();
        let ghost before = entry_views(out@);
        proof {
            if !has_entry(s) {
                assert(before + entries_at(s) =~= before);
            }
        }
        let qid: Qid = match r.qid() {
            Some(q) => q,
            None => {
                break;
            },
        };
        let offset = r.u64();
        proof {
            if s.len() >= 21 {
                lemma_field_skip(s, 13, 0, 8);
                assert(r.rest() =~= s.skip(21));
            }
        }
        let typ = r.u8();
        proof {
            if s.len() >= 22 {
                assert(r.rest() =~= s.skip(22));
            }
        }
        let name = r.str();
        match (offset, typ, name) {
            (Some(offset), Some(typ), Some(name)) => {
                let e = DirEntry { qid, offset, typ, name };
                proof {
                    assert(e@ == entry_at(s));
                    assert(r.rest() =~= s.skip(entry_len(s)));
                    assert(entry_views(out@.push(e)) =~= before.push(e@));
                    assert(before.push(e@) + entries_at(r.rest()) =~= before + (seq![e@]
                        + entries_at(r.rest())));
                }
                out.push(e);
            },
            _ => {
                break;
            },
        }
    }
    out
}

/// A number at the front of a message reads back as what was written, if it fits.
pub proof fn field_round_trip(v: nat, n: nat, rest: Seq<u8>)
    requires
        v < byte_range(n),
    ensures
        field(le_bytes(v, n) + rest, 0, n as int) == v,
{
    lemma_le_bytes_len(v, n);
    le_round_trip(v, n);
    assert((le_bytes(v, n) + rest).subrange(0, n as int) =~= le_bytes(v, n));
}

/// A string reads back as what was written, with what follows it left over, if its UTF-8 length fits
/// the length field.
pub proof fn str_round_trip(s: Seq<char>, rest: Seq<u8>)
    requires
        vstd::utf8::encode_utf8(s).len() < 65536,
    ensures
        has_str(str_bytes(s) + rest),
        text_of(str_payload(str_bytes(s) + rest)) == s,
        (str_bytes(s) + rest).skip(str_len(str_bytes(s) + rest)) == rest,
{
    let bytes = vstd::utf8::encode_utf8(s);
    let all = str_bytes(s) + rest;
    lemma_byte_ranges();
    lemma_le_bytes_len(bytes.len(), 2);
    assert(all =~= le_bytes(bytes.len(), 2) + (bytes + rest));
    field_round_trip(bytes.len(), 2, bytes + rest);
    assert(str_payload(all) =~= bytes);
    assert(all.skip(str_len(all)) =~= rest);
    vstd::utf8::encode_utf8_valid_utf8(s);
    vstd::utf8::encode_utf8_decode_utf8(s);
}

/// A qid reads back as what was written.
pub proof fn qid_round_trip(q: Qid, rest: Seq<u8>)
    ensures
        qid_bytes(q).len() == 13,
        qid_at(qid_bytes(q) + rest, 0) == q,
{
    let all = qid_bytes(q) + rest;
    let version = le_bytes(q.version as nat, 4);
    let path = le_bytes(q.path as nat, 8);
    lemma_byte_ranges();
    lemma_le_bytes_len(q.version as nat, 4);
    lemma_le_bytes_len(q.path as nat, 8);
    field_round_trip(q.version as nat, 4, path + rest);
    field_round_trip(q.path as nat, 8, rest);
    assert(all.skip(1) =~= version + (path + rest));
    assert(all.skip(5) =~= path + rest);
    lemma_field_skip(all, 1, 0, 4);
    lemma_field_skip(all, 5, 0, 8);
}

/// A directory entry on the wire.
pub open spec fn entry_bytes(e: DirEntryView) -> Seq<u8> {
    qid_bytes(e.qid) + le_bytes(e.offset as nat, 8) + seq![e.typ] + str_bytes(e.name)
}

/// Directory entries on the wire, one after the other.
pub open spec fn entries_bytes(l: Seq<DirEntryView>) -> Seq<u8>
    decreases l.len(),
{
    if l.len() == 0 {
        Seq::empty()
    } else {
        entry_bytes(l[0]) + entries_bytes(l.drop_first())
    }
}

/// A directory entry reads back as what was written, with what follows it left over, if the UTF-8
/// length of its name fits the length field.
#[verifier::spinoff_prover]
pub proof fn entry_round_trip(e: DirEntryView, rest: Seq<u8>)
    requires
        vstd::utf8::encode_utf8(e.name).len() < 65536,
    ensures
        has_entry(entry_bytes(e) + rest),
        entry_at(entry_bytes(e) + rest) == e,
        (entry_bytes(e) + rest).skip(entry_len(entry_bytes(e) + rest)) == rest,
{
    let all = entry_bytes(e) + rest;
    let named = str_bytes(e.name) + rest;
    lemma_entry_front(e, named);
    str_round_trip(e.name, rest);
    assert(all =~= entry_front(e) + named);
    assert(all.skip(entry_len(all)) =~= named.skip(str_len(named)));
}

/// A directory entry on the wire up to its name.
spec fn entry_front(e: DirEntryView) -> Seq<u8> {
    qid_bytes(e.qid) + le_bytes(e.offset as nat, 8) + seq![e.typ]
}

#[verifier::spinoff_prover]
proof fn lemma_entry_front(e: DirEntryView, named: Seq<u8>)
    ensures
        entry_front(e).len() == 22,
        (entry_front(e) + named).skip(22) == named,
        qid_at(entry_front(e) + named, 0) == e.qid,
        field(entry_front(e) + named, 13, 8) == e.offset,
        (entry_front(e) + named)[21] == e.typ,
{
    let all = entry_front(e) + named;
    let offset = le_bytes(e.offset as nat, 8);
    let behind = seq![e.typ] + named;
    lemma_byte_ranges();
    lemma_le_bytes_len(e.offset as nat, 8);
    qid_round_trip(e.qid, offset + behind);
    field_round_trip(e.offset as nat, 8, behind);
    assert(all =~= qid_bytes(e.qid) + (offset + behind));
    assert(all.skip(13) =~= offset + behind);
    lemma_field_skip(all, 13, 0, 8);
    assert(all.skip(22) =~= named);
}

/// A directory listing reads back as the entries that were written; an entry that is cut short at its
/// end (here `tail`) is left out.
#[verifier::spinoff_prover]
pub proof fn entries_round_trip(l: Seq<DirEntryView>, tail: Seq<u8>)
    requires
        forall|i: int|
            0 <= i < l.len() ==> vstd::utf8::encode_utf8(#[trigger] l[i].name).len() < 65536,
        !has_entry(tail),
    ensures
        entries_at(entries_bytes(l) + tail) == l,
    decreases l.len(),
{
    let all = entries_bytes(l) + tail;
    if l.len() == 0 {
        assert(all =~= tail);
    } else {
        let later = l.drop_first();
        let rest = entries_bytes(later) + tail;
        assert forall|i: int| 0 <= i < later.len() implies vstd::utf8::encode_utf8(
            #[trigger] later[i].name,
        ).len() < 65536 by {
            assert(later[i].name == l[i + 1].name);
        }
        entries_round_trip(later, tail);
        entry_round_trip(l[0], rest);
        assert(all =~= entry_bytes(l[0]) + rest);
        assert(l =~= seq![l[0]] + later);
    }
}

// Message types that only the kernel's own client sends.
pub const TMKNOD: u8 = 18;
pub const TRENAME: u8 = 20;
pub const TXATTRWALK: u8 = 30;
pub const TXATTRCREATE: u8 = 32;
pub const TLOCK: u8 = 52;
pub const TGETLOCK: u8 = 54;
pub const TLINK: u8 = 70;
pub const TAUTH: u8 = 102;
pub const TREMOVE: u8 = 122;

/// The name of a request's message type.
pub open spec fn msg_name(typ: u8) -> Seq<char> {
    if typ == TLERROR {
        "Tlerror"@
    } else if typ == TSTATFS {
        "Tstatfs"@
    } else if typ == TLOPEN {
        "Tlopen"@
    } else if typ == TLCREATE {
        "Tlcreate"@
    } else if typ == TSYMLINK {
        "Tsymlink"@
    } else if typ == TMKNOD {
        "Tmknod"@
    } else if typ == TRENAME {
        "Trename"@
    } else if typ == TREADLINK {
        "Treadlink"@
    } else if typ == TGETATTR {
        "Tgetattr"@
    } else if typ == TSETATTR {
        "Tsetattr"@
    } else if typ == TXATTRWALK {
        "Txattrwalk"@
    } else if typ == TXATTRCREATE {
        "Txattrcreate"@
    } else if typ == TREADDIR {
        "Treaddir"@
    } else if typ == TFSYNC {
        "Tfsync"@
    } else if typ == TLOCK {
        "Tlock"@
    } else if typ == TGETLOCK {
        "Tgetlock"@
    } else if typ == TLINK {
        "Tlink"@
    } else if typ == TMKDIR {
        "Tmkdir"@
    } else if typ == TRENAMEAT {
        "Trenameat"@
    } else if typ == TUNLINKAT {
        "Tunlinkat"@
    } else if typ == TVERSION {
        "Tversion"@
    } else if typ == TAUTH {
        "Tauth"@
    } else if typ == TATTACH {
        "Tattach"@
    } else if typ == TFLUSH {
        "Tflush"@
    } else if typ == TWALK {
        "Twalk"@
    } else if typ == TREAD {
        "Tread"@
    } else if typ == TWRITE {
        "Twrite"@
    } else if typ == TCLUNK {
        "Tclunk"@
    } else if typ == TREMOVE {
        "Tremove"@
    } else {
        "unknown"@
    }
}

/// The name of a request's message type, for messages to people.
pub fn tmsg_name(typ: u8) -> (name: &'static str)
    ensures
        name@ == msg_name(typ),
{
    if typ == TLERROR {
        "Tlerror"
    } else if typ == TSTATFS {
        "Tstatfs"
    } else if typ == TLOPEN {
        "Tlopen"
    } else if typ == TLCREATE {
        "Tlcreate"
    } else if typ == TSYMLINK {
        "Tsymlink"
    } else if typ == TMKNOD {
        "Tmknod"
    } else if typ == TRENAME {
        "Trename"
    } else if typ == TREADLINK {
        "Treadlink"
    } else if typ == TGETATTR {
        "Tgetattr"
    } else if typ == TSETATTR {
        "Tsetattr"
    } else if typ == TXATTRWALK {
        "Txattrwalk"
    } else if typ == TXATTRCREATE {
        "Txattrcreate"
    } else if typ == TREADDIR {
        "Treaddir"
    } else if typ == TFSYNC {
        "Tfsync"
    } else if typ == TLOCK {
        "Tlock"
    } else if typ == TGETLOCK {
        "Tgetlock"
    } else if typ == TLINK {
        "Tlink"
    } else if typ == TMKDIR {
        "Tmkdir"
    } else if typ == TRENAMEAT {
        "Trenameat"
    } else if typ == TUNLINKAT {
        "Tunlinkat"
    } else if typ == TVERSION {
        "Tversion"
    } else if typ == TAUTH {
        "Tauth"
    } else if typ == TATTACH {
        "Tattach"
    } else if typ == TFLUSH {
        "Tflush"
    } else if typ == TWALK {
        "Twalk"
    } else if typ == TREAD {
        "Tread"
    } else if typ == TWRITE {
        "Twrite"
    } else if typ == TCLUNK {
        "Tclunk"
    } else if typ == TREMOVE {
        "Tremove"
    } else {
        "unknown"
    }
}

} // verus!
