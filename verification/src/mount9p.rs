//! The decisions of the kernel-client bridge.
//!
//! The kernel's own 9p client talks through a socket pair, and bytes are pumped between that and the
//! transport unchanged. To notice a server that has stopped answering, each direction is scanned for
//! frame headers, and the requests without an answer are remembered with the time they were sent.

use crate::frame;
use crate::ninep;
use crate::text;
use std::collections::HashMap;
use crate::wire;
use vstd::prelude::*;

verus! {

broadcast use vstd::std_specs::hash::group_hash_axioms;

/// What the scanner reports of a frame. `oldtag` is only meaningful for a `Tflush`; for a frame
/// shorter than nine bytes it is 0.
#[derive(Clone, Copy, Debug, PartialEq, Eq)]
pub struct FrameHead {
    pub typ: u8,
    pub tag: u16,
    pub oldtag: u16,
}

/// Where a scan stands: the bytes captured of the frame at hand, and how many more to pass over
/// before the next frame starts.
pub struct Scan {
    pub captured: Seq<u8>,
    pub skip: nat,
}

/// The size that a frame's first four bytes announce.
pub open spec fn announced(header: Seq<u8>) -> nat {
    ninep::field(header, 0, 4)
}

/// How many bytes of a frame of `size` bytes are captured.
pub open spec fn captured_len(size: nat) -> nat {
    if size < 9 {
        size
    } else {
        9
    }
}

/// The head of the frame whose captured bytes are `h`.
pub open spec fn head_of(h: Seq<u8>) -> FrameHead {
    FrameHead {
        typ: h[4],
        tag: ninep::field(h, 5, 2) as u16,
        oldtag: if h.len() == 9 {
            ninep::field(h, 7, 2) as u16
        } else {
            0
        },
    }
}

/// The start of a scan, which is also where it stands between two frames.
pub open spec fn scan_start() -> Scan {
    Scan { captured: Seq::empty(), skip: 0 }
}

/// Whether the captured bytes announce a frame too short to be one.
pub open spec fn undersized(st: Scan) -> bool {
    st.captured.len() == 4 && announced(st.captured) < 7
}

/// The scan after capturing one more byte.
pub open spec fn capture(st: Scan, b: u8) -> (Scan, Seq<FrameHead>) {
    let h = st.captured.push(b);
    if h.len() >= 7 && h.len() == captured_len(announced(h)) {
        (
            Scan { captured: Seq::empty(), skip: (announced(h) - h.len()) as nat },
            seq![head_of(h)],
        )
    } else {
        (Scan { captured: h, skip: 0 }, Seq::empty())
    }
}

/// One step of a scan: the scan after the byte `b`, and the frame head that it completes, if any.
/// A frame that announces fewer than seven bytes is passed over without a report.
pub open spec fn scan_byte(st: Scan, b: u8) -> (Scan, Seq<FrameHead>) {
    if st.skip > 0 {
        (Scan { captured: st.captured, skip: (st.skip - 1) as nat }, Seq::empty())
    } else if undersized(st) {
        if announced(st.captured) > 4 {
            (
                Scan { captured: Seq::empty(), skip: (announced(st.captured) - 5) as nat },
                Seq::empty(),
            )
        } else {
            capture(scan_start(), b)
        }
    } else {
        capture(st, b)
    }
}

/// The scan after all of `bytes`, and the heads of the frames met on the way.
pub open spec fn scan(st: Scan, bytes: Seq<u8>) -> (Scan, Seq<FrameHead>)
    decreases bytes.len(),
{
    if bytes.len() == 0 {
        (st, Seq::empty())
    } else {
        let (mid, first) = scan_byte(st, bytes[0]);
        let (end, more) = scan(mid, bytes.drop_first());
        (end, first + more)
    }
}

/// Where the stream is cut into chunks makes no difference: scanning two chunks in turn is scanning
/// them joined.
pub proof fn scan_is_chunking_independent(st: Scan, a: Seq<u8>, b: Seq<u8>)
    ensures
        scan(scan(st, a).0, b).0 == scan(st, a + b).0,
        scan(st, a).1 + scan(scan(st, a).0, b).1 == scan(st, a + b).1,
    decreases a.len(),
{
    if a.len() == 0 {
        assert(a + b =~= b);
        assert(Seq::<FrameHead>::empty() + scan(st, b).1 =~= scan(st, b).1);
    } else {
        let (mid, first) = scan_byte(st, a[0]);
        scan_is_chunking_independent(mid, a.drop_first(), b);
        assert((a + b).drop_first() =~= a.drop_first() + b);
        assert(first + scan(mid, a.drop_first()).1 + scan(scan(st, a).0, b).1 =~= first + (scan(
            mid,
            a.drop_first(),
        ).1 + scan(scan(st, a).0, b).1));
    }
}

/// Passing over bytes that are to be skipped reports nothing.
proof fn lemma_scan_skip(st: Scan, bytes: Seq<u8>)
    requires
        bytes.len() <= st.skip,
    ensures
        scan(st, bytes) == (
            Scan { captured: st.captured, skip: (st.skip - bytes.len()) as nat },
            Seq::<FrameHead>::empty(),
        ),
    decreases bytes.len(),
{
    if bytes.len() > 0 {
        let (mid, first) = scan_byte(st, bytes[0]);
        lemma_scan_skip(mid, bytes.drop_first());
        assert(first + Seq::<FrameHead>::empty() =~= Seq::<FrameHead>::empty());
    }
}

/// A scan of one byte.
proof fn lemma_scan_one(st: Scan, b: u8)
    ensures
        scan(st, seq![b]) == scan_byte(st, b),
{
    let (mid, first) = scan_byte(st, b);
    assert(seq![b].drop_first() =~= Seq::<u8>::empty());
    assert(scan(mid, Seq::<u8>::empty()) == (mid, Seq::<FrameHead>::empty()));
    assert(first + Seq::<FrameHead>::empty() =~= first);
}

/// Incremental scan of a 9p byte stream that reports each frame's head without buffering payloads.
/// A frame is `size[4] type[1] tag[2] body...`; for `Tflush` the first body field is `oldtag[2]`, so
/// up to nine bytes per frame are captured and the rest is passed over.
pub struct FrameScanner {
    header: Vec<u8>,
    skip: usize,
}

impl View for FrameScanner {
    type V = Scan;

    closed spec fn view(&self) -> Scan {
        Scan { captured: self.header@, skip: self.skip as nat }
    }
}

impl FrameScanner {
    /// The capture is never complete between two bytes, it goes past the size only for a frame of
    /// legal size, and nothing is captured while bytes are being passed over.
    #[verifier::type_invariant]
    spec fn well_formed(self) -> bool {
        &&& self.skip > 0 ==> self.header@.len() == 0
        &&& self.header@.len() > 4 ==> announced(self.header@) >= 7 && self.header@.len()
            < captured_len(announced(self.header@))
    }

    pub fn new() -> (s: Self)
        ensures
            s@ == scan_start(),
    {
        FrameScanner { header: Vec::new(), skip: 0 }
    }

    /// Feeds a chunk, and answers with the heads of the frames whose captured part it completes.
    pub fn feed(&mut self, b: &[u8]) -> (heads: Vec<FrameHead>)
        ensures
            final(self)@ == scan(old(self)@, b@).0,
            heads@ == scan(old(self)@, b@).1,
    {
        let mut heads: Vec<FrameHead> = Vec::new();
        let mut i: usize = 0;
        let n: usize = b.len();
        let ghost start = self@;
        assert(b@.subrange(0, 0) =~= Seq::<u8>::empty());
        while i < n
            invariant
                i <= n,
                n == b@.len(),
                scan(start, b@.subrange(0, i as int)) == (self@, heads@),
            decreases n - i,
        {
            let ghost before = self@;
            let ghost seen = heads@;
            let ghost done = b@.subrange(0, i as int);
            proof {
                use_type_invariant(&*self);
            }
            if self.skip > 0 {
                let step: usize = if self.skip < n - i {
                    self.skip
                } else {
                    n - i
                };
                proof {
                    let piece = b@.subrange(i as int, i + step);
                    lemma_scan_skip(before, piece);
                    scan_is_chunking_independent(start, done, piece);
                    assert(done + piece =~= b@.subrange(0, i + step));
                    assert(seen + Seq::<FrameHead>::empty() =~= seen);
                }
                self.skip = self.skip - step;
                i = i + step;
            } else {
                let head = self.step(b[i]);
                proof {
                    lemma_scan_one(before, b@[i as int]);
                    let piece = seq![b@[i as int]];
                    scan_is_chunking_independent(start, done, piece);
                    assert(done + piece =~= b@.subrange(0, i + 1));
                    assert(seen + Seq::<FrameHead>::empty() =~= seen);
                }
                if let Some(h) = head {
                    assert(seen.push(h) =~= seen + seq![h]);
                    heads.push(h);
                }
                i = i + 1;
            }
        }
        assert(b@.subrange(0, n as int) =~= b@);
        heads
    }

    /// Takes one byte of a frame's header.
    fn step(&mut self, b: u8) -> (head: Option<FrameHead>)
        requires
            old(self)@.skip == 0,
        ensures
            final(self)@ == scan_byte(old(self)@, b).0,
            scan_byte(old(self)@, b).1 == (match head {
                Some(h) => seq![h],
                None => Seq::empty(),
            }),
    {
        proof {
            use_type_invariant(&*self);
        }
        if self.header.len() == 4 {
            let size: u32 = frame_size(&self.header);
            if size < 7 {
                let skip: u32 = if size > 4 {
                    size - 4
                } else {
                    0
                };
                self.header = Vec::new();
                if skip > 0 {
                    self.skip = (skip - 1) as usize;
                    return None;
                }
            }
        }
        let mut header: Vec<u8> = Vec::new();
        core::mem::swap(&mut self.header, &mut header);
        let ghost captured = header@;
        header.push(b);
        proof {
            if captured.len() >= 4 {
                assert(header@.subrange(0, 4) =~= captured.subrange(0, 4));
            }
        }
        if header.len() < 7 {
            self.header = header;
            return None;
        }
        let size: u32 = frame_size(&header);
        let target: usize = if size < 9 {
            size as usize
        } else {
            9
        };
        if header.len() < target {
            self.header = header;
            return None;
        }
        self.skip = size as usize - target;
        Some(head_from(&header))
    }
}

/// The head of the frame whose captured bytes are `header`.
fn head_from(header: &Vec<u8>) -> (h: FrameHead)
    requires
        7 <= header@.len() <= 9,
    ensures
        h == head_of(header@),
{
    let mut r = ninep::R::new(vstd::slice::slice_subrange(header.as_slice(), 5, header.len()));
    let ghost tail = header@.subrange(5, header@.len() as int);
    assert(tail =~= header@.skip(5));
    let tag: u16 = match r.u16() {
        Some(v) => v,
        None => 0,
    };
    proof {
        ninep::lemma_field_skip(header@, 5, 0, 2);
        if header@.len() == 9 {
            ninep::lemma_field_skip(header@, 5, 2, 2);
            ninep::lemma_field_skip(tail, 2, 0, 2);
        }
    }
    let oldtag: u16 = match r.u16() {
        Some(v) => v,
        None => 0,
    };
    FrameHead { typ: header[4], tag, oldtag }
}

/// The size that the first four bytes of `header` announce.
fn frame_size(header: &Vec<u8>) -> (size: u32)
    requires
        header@.len() >= 4,
    ensures
        size == announced(header@),
{
    let mut r = ninep::R::new(header.as_slice());
    match r.u32() {
        Some(size) => size,
        None => 0,
    }
}

/// What the scanner reports of a well-formed message.
pub open spec fn head_in(typ: u8, tag: u16, body: Seq<u8>) -> FrameHead {
    FrameHead {
        typ,
        tag,
        oldtag: if body.len() >= 2 {
            ninep::field(body, 0, 2) as u16
        } else {
            0
        },
    }
}

/// A well-formed message is reported once, as it is, and whatever follows it is scanned as if it came
/// first: nothing of a message leaks into the report of the next.
pub proof fn whole_messages_are_reported(typ: u8, tag: u16, body: Seq<u8>, rest: Seq<u8>)
    requires
        7 + body.len() < 0x1_0000_0000,
    ensures
        scan(scan_start(), frame::frame_bytes(typ, tag, body) + rest).0 == scan(
            scan_start(),
            rest,
        ).0,
        scan(scan_start(), frame::frame_bytes(typ, tag, body) + rest).1 == seq![
            head_in(typ, tag, body),
        ] + scan(scan_start(), rest).1,
{
    let f = frame::frame_bytes(typ, tag, body);
    let size = (7 + body.len()) as nat;
    let c = captured_len(size) as int;
    lemma_frame_fields(typ, tag, body);
    lemma_capturing(f, size, c - 1);
    let before = Scan { captured: f.take(c - 1), skip: 0 };
    let h = f.take(c);
    lemma_scan_one(before, f[c - 1]);
    assert(f.take(c - 1).push(f[c - 1]) =~= h);
    assert(h.subrange(0, 4) =~= f.subrange(0, 4));
    assert(h.subrange(5, 7) =~= f.subrange(5, 7));
    if c == 9 {
        assert(h.subrange(7, 9) =~= body.subrange(0, 2));
    }
    assert(head_of(h) == head_in(typ, tag, body));
    let after = Scan { captured: Seq::empty(), skip: (size - c) as nat };
    assert(scan(before, seq![f[c - 1]]) == (after, seq![head_in(typ, tag, body)]));
    scan_is_chunking_independent(scan_start(), f.take(c - 1), seq![f[c - 1]]);
    assert(f.take(c - 1) + seq![f[c - 1]] =~= h);
    assert(Seq::<FrameHead>::empty() + seq![head_in(typ, tag, body)] =~= seq![
        head_in(typ, tag, body),
    ]);
    lemma_scan_skip(after, f.skip(c));
    scan_is_chunking_independent(scan_start(), h, f.skip(c));
    assert(h + f.skip(c) =~= f);
    assert(seq![head_in(typ, tag, body)] + Seq::<FrameHead>::empty() =~= seq![
        head_in(typ, tag, body),
    ]);
    scan_is_chunking_independent(scan_start(), f, rest);
}

proof fn lemma_frame_fields(typ: u8, tag: u16, body: Seq<u8>)
    requires
        7 + body.len() < 0x1_0000_0000,
    ensures
        frame::frame_bytes(typ, tag, body).len() == 7 + body.len(),
        ninep::field(frame::frame_bytes(typ, tag, body), 0, 4) == 7 + body.len(),
        frame::frame_bytes(typ, tag, body)[4] == typ,
        ninep::field(frame::frame_bytes(typ, tag, body), 5, 2) == tag,
        frame::frame_bytes(typ, tag, body).skip(7) == body,
{
    let f = frame::frame_bytes(typ, tag, body);
    let size = (7 + body.len()) as nat;
    ninep::lemma_byte_ranges();
    ninep::lemma_le_bytes_len(size, 4);
    ninep::lemma_le_bytes_len(tag as nat, 2);
    ninep::le_round_trip(size, 4);
    ninep::le_round_trip(tag as nat, 2);
    assert(f.subrange(0, 4) =~= ninep::le_bytes(size, 4));
    assert(f.subrange(5, 7) =~= ninep::le_bytes(tag as nat, 2));
    assert(f.skip(7) =~= body);
}

proof fn lemma_capturing(f: Seq<u8>, size: nat, k: int)
    requires
        f.len() >= size >= 7,
        ninep::field(f, 0, 4) == size,
        0 <= k < captured_len(size),
    ensures
        scan(scan_start(), f.take(k)) == (
            Scan { captured: f.take(k), skip: 0 },
            Seq::<FrameHead>::empty(),
        ),
    decreases k,
{
    if k == 0 {
        assert(f.take(0) =~= Seq::<u8>::empty());
    } else {
        lemma_capturing(f, size, k - 1);
        let before = Scan { captured: f.take(k - 1), skip: 0 };
        lemma_scan_one(before, f[k - 1]);
        if k >= 5 {
            assert(f.take(k - 1).subrange(0, 4) =~= f.subrange(0, 4));
        }
        if k >= 4 {
            assert(f.take(k).subrange(0, 4) =~= f.subrange(0, 4));
        }
        assert(f.take(k - 1).push(f[k - 1]) =~= f.take(k));
        scan_is_chunking_independent(scan_start(), f.take(k - 1), seq![f[k - 1]]);
        assert(f.take(k - 1) + seq![f[k - 1]] =~= f.take(k));
        assert(Seq::<FrameHead>::empty() + Seq::<FrameHead>::empty() =~= Seq::<
            FrameHead,
        >::empty());
    }
}

/// A request that was forwarded: its type, and when, in nanoseconds on a clock that never goes back.
#[derive(Clone, Copy, Debug, PartialEq, Eq)]
pub struct Sent {
    pub typ: u8,
    pub at: u64,
}

/// Requests that were forwarded to the server and not answered yet, by their tags.
pub struct Outstanding {
    map: HashMap<u16, Sent>,
}

impl View for Outstanding {
    type V = Map<u16, Sent>;

    closed spec fn view(&self) -> Map<u16, Sent> {
        self.map@
    }
}

/// The outstanding requests after one more was forwarded. A flush gives up the request whose tag it
/// names: no answer to that is expected any more.
pub open spec fn requested(m: Map<u16, Sent>, head: FrameHead, now: u64) -> Map<u16, Sent> {
    (if head.typ == ninep::TFLUSH {
        m.remove(head.oldtag)
    } else {
        m
    }).insert(head.tag, Sent { typ: head.typ, at: now })
}

/// For how long a request has been waiting.
pub open spec fn age(sent: Sent, now: u64) -> u64 {
    if now < sent.at {
        0
    } else {
        (now - sent.at) as u64
    }
}

/// A request that has gone unanswered for too long.
#[derive(Clone, Copy, Debug, PartialEq, Eq)]
pub struct Stall {
    pub tag: u16,
    pub typ: u8,
    /// For how long, in nanoseconds.
    pub age: u64,
    /// How many requests are outstanding in all.
    pub outstanding: usize,
}

/// Seconds between two checks for a stall.
pub const CHECK_INTERVAL: u64 = 5;

pub const NANOS_PER_SEC: u64 = 1_000_000_000;

/// That `oldest` is an oldest outstanding request.
pub open spec fn is_oldest(m: Map<u16, Sent>, now: u64, oldest: u16) -> bool {
    &&& m.contains_key(oldest)
    &&& forall|t: u16| #[trigger] m.contains_key(t) ==> age(m[t], now) <= age(m[oldest], now)
}

impl Outstanding {
    pub fn new() -> (o: Self)
        ensures
            o@ == Map::<u16, Sent>::empty(),
    {
        Outstanding { map: HashMap::new() }
    }

    /// A request was forwarded to the server.
    pub fn request(&mut self, head: FrameHead, now: u64)
        ensures
            final(self)@ == requested(old(self)@, head, now),
    {
        if head.typ == ninep::TFLUSH {
            self.map.remove(&head.oldtag);
        }
        self.map.insert(head.tag, Sent { typ: head.typ, at: now });
    }

    /// A response was forwarded from the server.
    pub fn response(&mut self, head: FrameHead)
        ensures
            final(self)@ == old(self)@.remove(head.tag),
    {
        self.map.remove(&head.tag);
    }

    /// Whether the oldest outstanding request has gone unanswered for more than `timeout`
    /// nanoseconds. A timeout of 0 means to wait for ever.
    pub fn stalled(&self, now: u64, timeout: u128) -> (r: Option<Stall>)
        ensures
            match r {
                Some(s) => {
                    &&& 0 < timeout < s.age
                    &&& is_oldest(self@, now, s.tag)
                    &&& s.typ == self@[s.tag].typ
                    &&& s.age == age(self@[s.tag], now)
                    &&& s.outstanding == self@.dom().len()
                },
                None => timeout == 0 || forall|t: u16| #[trigger]
                    self@.contains_key(t) ==> age(self@[t], now) <= timeout,
            },
    {
        if timeout == 0 {
            return None;
        }
        let mut oldest: Option<(u16, Sent, u64)> = None;
        for tag in it: self.map.keys()
            invariant
                it.seq().unref().to_set() == self.map@.dom(),
                match oldest {
                    Some((t, sent, a)) => {
                        &&& self.map@.contains_key(t) && self.map@[t] == sent
                        &&& a == age(sent, now)
                        &&& forall|j: int|
                            0 <= j < it.index() ==> age(
                                self.map@[*(#[trigger] it.seq()[j])],
                                now,
                            ) <= a
                    },
                    None => it.index() == 0,
                },
        {
            assert(it.seq().unref()[it.index()] == *tag);
            assert(it.seq().unref().to_set().contains(*tag));
            if let Some(sent) = self.map.get(tag) {
                let waited: u64 = now.saturating_sub(sent.at);
                let older: bool = match oldest {
                    Some((_, _, a)) => waited > a,
                    None => true,
                };
                if older {
                    oldest = Some((*tag, *sent, waited));
                }
            }
        }
        match oldest {
            Some((tag, sent, waited)) => if waited as u128 > timeout {
                Some(
                    Stall { tag, typ: sent.typ, age: waited, outstanding: self.map.len() },
                )
            } else {
                None
            },
            None => None,
        }
    }
}

/// The message of a stall.
pub open spec fn stall_message(s: Stall) -> Seq<char> {
    "9p request stalled: "@ + ninep::msg_name(s.typ) + " (tag "@ + text::digits(s.tag as nat)
        + ") unanswered for "@ + text::digits((s.age / NANOS_PER_SEC) as nat) + "s, "@
        + text::digits(s.outstanding as nat) + " outstanding"@
}

impl Stall {
    pub fn message(&self) -> (m: String)
        ensures
            m@ == stall_message(*self),
    {
        let mut m: String = "9p request stalled: ".to_string();
        m.append(ninep::tmsg_name(self.typ));
        m.append(" (tag ");
        text::push_digits(&mut m, self.tag as u64);
        m.append(") unanswered for ");
        text::push_digits(&mut m, self.age / NANOS_PER_SEC);
        m.append("s, ");
        text::push_digits(&mut m, self.outstanding as u64);
        m.append(" outstanding");
        m
    }
}

/// An answered request is not outstanding any more, and the answer touches no other.
pub proof fn answers_clear_their_request(m: Map<u16, Sent>, head: FrameHead, now: u64)
    requires
        head.typ != ninep::TFLUSH,
    ensures
        requested(m, head, now).contains_key(head.tag),
        requested(m, head, now).remove(head.tag) == m.remove(head.tag),
{
    assert(requested(m, head, now).remove(head.tag) =~= m.remove(head.tag));
}

/// A flushed request cannot stall the mount, though it is never answered.
pub proof fn flushed_requests_are_given_up(m: Map<u16, Sent>, head: FrameHead, now: u64)
    requires
        head.typ == ninep::TFLUSH,
        head.oldtag != head.tag,
    ensures
        !requested(m, head, now).contains_key(head.oldtag),
        forall|t: u16|
            t != head.oldtag && t != head.tag && m.contains_key(t) ==> {
                &&& requested(m, head, now).contains_key(t)
                &&& #[trigger] requested(m, head, now)[t] == m[t]
            },
{
}

/// The options for the kernel's 9p client, which reads and writes through `fd`.
pub open spec fn mount_options(fd: int, msize: nat, cache: Seq<char>) -> Seq<char> {
    "trans=fd,rfdno="@ + text::decimal(fd) + ",wfdno="@ + text::decimal(fd)
        + ",version=9p2000.L,msize="@ + text::digits(msize) + ",cache="@ + cache
        + ",aname=/export"@
}

/// Builds the options for the kernel's 9p client.
pub fn mount_data(fd: i32, msize: usize, cache: &str) -> (s: String)
    ensures
        s@ == mount_options(fd as int, msize as nat, cache@),
{
    let mut s: String = "trans=fd,rfdno=".to_string();
    text::push_decimal(&mut s, fd as i64);
    s.append(",wfdno=");
    text::push_decimal(&mut s, fd as i64);
    s.append(",version=9p2000.L,msize=");
    text::push_digits(&mut s, msize as u64);
    s.append(",cache=");
    s.append(cache);
    s.append(",aname=/export");
    s
}

/// How far a bridge has got.
#[derive(Clone, Copy, Debug, PartialEq, Eq)]
pub enum Phase {
    /// The kernel is mounting, which needs the bytes pumped already.
    Mounting,
    Mounted,
}

/// What happened to a bridge. `S` is the type of an error's text.
#[derive(Debug, PartialEq, Eq)]
pub enum BridgeEventOf<S> {
    MountDone,
    MountFailed(S),
    /// One of the two directions has come to its end.
    PumpClosed,
    PumpFailed(S),
    /// The server has stopped answering.
    Stalled(S),
}

pub type BridgeEvent = BridgeEventOf<String>;

/// What becomes of a bridge. `S` is the type of an error's text.
#[derive(Debug, PartialEq, Eq)]
pub enum BridgeNextOf<S> {
    GoOn(Phase),
    /// The bridge is over, and the mount is to be detached.
    End(Result<(), S>),
}

pub type BridgeNext = BridgeNextOf<String>;

pub open spec fn event_view(e: BridgeEvent) -> BridgeEventOf<Seq<char>> {
    match e {
        BridgeEventOf::MountDone => BridgeEventOf::MountDone,
        BridgeEventOf::MountFailed(s) => BridgeEventOf::MountFailed(s@),
        BridgeEventOf::PumpClosed => BridgeEventOf::PumpClosed,
        BridgeEventOf::PumpFailed(s) => BridgeEventOf::PumpFailed(s@),
        BridgeEventOf::Stalled(s) => BridgeEventOf::Stalled(s@),
    }
}

pub open spec fn next_view(n: BridgeNext) -> BridgeNextOf<Seq<char>> {
    match n {
        BridgeNextOf::GoOn(p) => BridgeNextOf::GoOn(p),
        BridgeNextOf::End(Ok(_)) => BridgeNextOf::End(Ok(())),
        BridgeNextOf::End(Err(s)) => BridgeNextOf::End(Err(s@)),
    }
}

/// The end of the transport is an error before the mount is done, and the normal end after that.
/// Everything that fails ends the bridge with its error.
pub open spec fn bridged(
    phase: Phase,
    e: BridgeEventOf<Seq<char>>,
) -> BridgeNextOf<Seq<char>> {
    match e {
        BridgeEventOf::MountDone => BridgeNextOf::GoOn(Phase::Mounted),
        BridgeEventOf::MountFailed(s) => BridgeNextOf::End(Err(s)),
        BridgeEventOf::PumpClosed => match phase {
            Phase::Mounting => BridgeNextOf::End(
                Err("9p transport closed before mount completed"@),
            ),
            Phase::Mounted => BridgeNextOf::End(Ok(())),
        },
        BridgeEventOf::PumpFailed(s) => BridgeNextOf::End(Err(s)),
        BridgeEventOf::Stalled(s) => BridgeNextOf::End(Err(s)),
    }
}

/// Decides what becomes of a bridge.
pub fn bridge_next(phase: Phase, e: BridgeEvent) -> (n: BridgeNext)
    ensures
        next_view(n) == bridged(phase, event_view(e)),
{
    match e {
        BridgeEventOf::MountDone => BridgeNextOf::GoOn(Phase::Mounted),
        BridgeEventOf::MountFailed(s) => BridgeNextOf::End(Err(s)),
        BridgeEventOf::PumpClosed => match phase {
            Phase::Mounting => BridgeNextOf::End(
                Err("9p transport closed before mount completed".to_string()),
            ),
            Phase::Mounted => BridgeNextOf::End(Ok(())),
        },
        BridgeEventOf::PumpFailed(s) => BridgeNextOf::End(Err(s)),
        BridgeEventOf::Stalled(s) => BridgeNextOf::End(Err(s)),
    }
}

/// A request is outstanding from when it was seen, under its tag and with its type. All others stay,
/// but for the one that a flush gives up.
pub proof fn requests_are_noted(m: Map<u16, Sent>, head: FrameHead, now: u64, later: u64)
    ensures
        ({
            let r = requested(m, head, now);
            &&& r.contains_key(head.tag) && r[head.tag].typ == head.typ && r[head.tag].at == now
            &&& forall|t: u16|
                t != head.tag && !(head.typ == 108 && t == head.oldtag) ==> {
                    &&& #[trigger] r.contains_key(t) == m.contains_key(t)
                    &&& m.contains_key(t) ==> r[t] == m[t]
                }
            &&& head.typ == 108 && head.oldtag != head.tag ==> !r.contains_key(head.oldtag)
            &&& later >= now ==> age(r[head.tag], later) == later - now
            &&& later < now ==> age(r[head.tag], later) == 0
        }),
{
}

/// The head of a message is its type and tag, and the tag at the front of its body where it has one.
pub proof fn heads_are_of_their_message(typ: u8, tag: u16, body: Seq<u8>)
    ensures
        head_in(typ, tag, body).typ == typ,
        head_in(typ, tag, body).tag == tag,
        body.len() >= 2 ==> head_in(typ, tag, body).oldtag == body[0] + 256 * body[1],
        body.len() < 2 ==> head_in(typ, tag, body).oldtag == 0,
{
    if body.len() >= 2 {
        wire::numbers_are_little_endian(body, 0);
    }
}

/// A length below that of the shortest message is passed over with the bytes that it counts: the
/// messages behind it are seen as if it were not there.
pub proof fn undersized_messages_are_passed_over(b: Seq<u8>, rest: Seq<u8>)
    requires
        b.len() >= 4,
        wire::num4(b, 0) < 7,
        b.len() == if wire::num4(b, 0) > 4 {
            wire::num4(b, 0)
        } else {
            4
        },
    ensures
        scan(scan_start(), b + rest).1 == scan(scan_start(), rest).1,
{
    let n = wire::num4(b, 0);
    let front = b.take(4);
    let over = b.skip(4);
    wire::numbers_are_little_endian(b, 0);
    assert(front.subrange(0, 4) =~= b.subrange(0, 4));
    assert(b + rest =~= front + (over + rest));
    scan_is_chunking_independent(scan_start(), front, over + rest);
    let st = Scan { captured: front, skip: 0 };
    assert(scan(scan_start(), front) == (st, Seq::<FrameHead>::empty())) by {
        lemma_scan_four(front);
    }
    assert(undersized(st));
    scan_is_chunking_independent(st, over, rest);
    if n <= 4 {
        assert(over + rest =~= rest);
        if rest.len() > 0 {
            assert(scan_byte(st, rest[0]) == scan_byte(scan_start(), rest[0]));
        }
    } else {
        reveal_with_fuel(scan, 3);
        assert(over.len() == n - 4);
        if n == 5 {
            assert(over.drop_first() =~= Seq::<u8>::empty());
        } else {
            assert(over.drop_first().drop_first() =~= Seq::<u8>::empty());
        }
        assert(scan(st, over).0 == scan_start());
        assert(scan(st, over).1 =~= Seq::<FrameHead>::empty());
    }
    assert(Seq::<FrameHead>::empty() + scan(scan_start(), rest).1 =~= scan(scan_start(), rest).1);
}

proof fn lemma_scan_four(b: Seq<u8>)
    requires
        b.len() == 4,
        announced(b) < 7,
    ensures
        scan(scan_start(), b) == (Scan { captured: b, skip: 0 }, Seq::<FrameHead>::empty()),
{
    let none = Seq::<u8>::empty();
    let heads = Seq::<FrameHead>::empty();
    assert(none.push(b[0]).push(b[1]).push(b[2]).push(b[3]) =~= b);
    assert(b.drop_first().drop_first().drop_first().drop_first() =~= none);
    reveal_with_fuel(scan, 5);
    assert(heads + (heads + (heads + (heads + heads))) =~= heads);
}

/// A bridge ends well exactly when a mounted file system's transport closes; a transport that closes
/// before the mount is there is an error, and other errors are told as they are. Only the mount's
/// success lets it go on, and it is mounted from then on.
pub proof fn bridges_end_well_only_when_mounted(phase: Phase, e: BridgeEventOf<Seq<char>>)
    ensures
        bridged(phase, e) matches BridgeNextOf::End(Ok(_)) <==> phase is Mounted && e is PumpClosed,
        bridged(phase, e) is GoOn <==> e is MountDone,
        bridged(phase, e) matches BridgeNextOf::GoOn(p) ==> p is Mounted,
        bridged(phase, e) matches BridgeNextOf::End(Err(s)) ==> match e {
            BridgeEventOf::MountFailed(why) => s == why,
            BridgeEventOf::PumpFailed(why) => s == why,
            BridgeEventOf::Stalled(why) => s == why,
            _ => s == "9p transport closed before mount completed"@,
        },
{
}

/// The message on a stall tells how many whole seconds the request is unanswered, and nothing finer:
/// two stalls that differ in nothing else are told alike exactly if those are the same.
pub proof fn stalls_are_told_in_seconds(s: Stall, age: u64)
    ensures
        stall_message(s) == stall_message(Stall { age, ..s }) <==> s.age / 1_000_000_000 == age
            / 1_000_000_000,
{
    let front = "9p request stalled: "@ + ninep::msg_name(s.typ) + " (tag "@ + text::digits(
        s.tag as nat,
    ) + ") unanswered for "@;
    let behind = "s, "@ + text::digits(s.outstanding as nat) + " outstanding"@;
    let a = text::digits((s.age / NANOS_PER_SEC) as nat);
    let b = text::digits((age / NANOS_PER_SEC) as nat);
    assert(stall_message(s) =~= front + a + behind);
    assert(stall_message(Stall { age, ..s }) =~= front + b + behind);
    lemma_framed(front, a, b, behind);
    text::digits_say_the_number((s.age / NANOS_PER_SEC) as nat);
    text::digits_say_the_number((age / NANOS_PER_SEC) as nat);
}

/// The message on a stall tells the request's tag and how many requests are outstanding.
pub proof fn stalls_are_told_apart(s: Stall, tag: u16, outstanding: usize)
    ensures
        stall_message(s) == stall_message(Stall { tag, ..s }) <==> s.tag == tag,
        stall_message(s) == stall_message(Stall { outstanding, ..s }) <==> s.outstanding
            == outstanding,
{
    let head = "9p request stalled: "@ + ninep::msg_name(s.typ) + " (tag "@;
    let secs = ") unanswered for "@ + text::digits((s.age / NANOS_PER_SEC) as nat) + "s, "@;
    let end = " outstanding"@;
    let n = text::digits(s.outstanding as nat);
    let other = Stall { tag, ..s };
    assert(stall_message(s) =~= head + text::digits(s.tag as nat) + (secs + n + end));
    assert(stall_message(other) =~= head + text::digits(tag as nat) + (secs + n + end));
    lemma_framed(head, text::digits(s.tag as nat), text::digits(tag as nat), secs + n + end);
    text::digits_say_the_number(s.tag as nat);
    text::digits_say_the_number(tag as nat);
    let most = head + text::digits(s.tag as nat) + secs;
    let more = Stall { outstanding, ..s };
    assert(stall_message(s) =~= most + n + end);
    assert(stall_message(more) =~= most + text::digits(outstanding as nat) + end);
    lemma_framed(most, n, text::digits(outstanding as nat), end);
    text::digits_say_the_number(s.outstanding as nat);
    text::digits_say_the_number(outstanding as nat);
}

proof fn lemma_framed(front: Seq<char>, a: Seq<char>, b: Seq<char>, behind: Seq<char>)
    ensures
        front + a + behind == front + b + behind ==> a == b,
{
    let x = front + a + behind;
    let y = front + b + behind;
    if x == y {
        assert(x.len() == y.len());
        assert(a =~= x.subrange(front.len() as int, (front.len() + a.len()) as int));
        assert(b =~= y.subrange(front.len() as int, (front.len() + b.len()) as int));
    }
}

/// The options of a mount, one by one: the socket's number for both directions, the protocol, the
/// message size, the cache mode and the export.
pub proof fn mount_options_name_the_socket(fd: int, msize: nat, cache: Seq<char>)
    requires
        !cache.contains(','),
    ensures
        text::split_on(mount_options(fd, msize, cache), ',') == seq![
            "trans=fd"@,
            "rfdno="@ + text::decimal(fd),
            "wfdno="@ + text::decimal(fd),
            "version=9p2000.L"@,
            "msize="@ + text::digits(msize),
            "cache="@ + cache,
            "aname=/export"@,
        ],
{
    reveal_strlit("trans=fd,rfdno=");
    reveal_strlit("trans=fd");
    reveal_strlit("rfdno=");
    reveal_strlit(",wfdno=");
    reveal_strlit("wfdno=");
    reveal_strlit(",version=9p2000.L,msize=");
    reveal_strlit("version=9p2000.L");
    reveal_strlit("msize=");
    reveal_strlit(",cache=");
    reveal_strlit("cache=");
    reveal_strlit(",aname=/export");
    reveal_strlit("aname=/export");
    let comma = seq![','];
    let d = text::decimal(fd);
    let n = text::digits(msize);
    lemma_no_comma(fd);
    lemma_no_comma(msize as int);
    let o7 = "aname=/export"@;
    let o6 = "cache="@ + cache + comma + o7;
    let o5 = "msize="@ + n + comma + o6;
    let o4 = "version=9p2000.L"@ + comma + o5;
    let o3 = "wfdno="@ + d + comma + o4;
    let o2 = "rfdno="@ + d + comma + o3;
    let o1 = "trans=fd"@ + comma + o2;
    assert(comma + o7 =~= ",aname=/export"@);
    assert(comma + "cache="@ =~= ",cache="@);
    assert(comma + "version=9p2000.L"@ + comma + "msize="@ =~= ",version=9p2000.L,msize="@);
    assert(comma + "wfdno="@ =~= ",wfdno="@);
    assert("trans=fd"@ + comma + "rfdno="@ =~= "trans=fd,rfdno="@);
    assert(o1 =~= ("trans=fd"@ + comma + "rfdno="@) + d + (comma + "wfdno="@) + d + (comma
        + "version=9p2000.L"@ + comma + "msize="@) + n + (comma + "cache="@) + cache + (comma + o7));
    assert(o1 == mount_options(fd, msize, cache));
    text::lists_split_part_by_part(o7, ',', Seq::empty());
    text::lists_split_part_by_part("cache="@ + cache, ',', o7);
    text::lists_split_part_by_part("msize="@ + n, ',', o6);
    text::lists_split_part_by_part("version=9p2000.L"@, ',', o5);
    text::lists_split_part_by_part("wfdno="@ + d, ',', o4);
    text::lists_split_part_by_part("rfdno="@ + d, ',', o3);
    text::lists_split_part_by_part("trans=fd"@, ',', o2);
}

proof fn lemma_no_comma(i: int)
    ensures
        !text::decimal(i).contains(','),
        i >= 0 ==> text::decimal(i) == text::digits(i as nat),
{
    if i < 0 {
        text::digits_say_the_number((-i) as nat);
    } else {
        text::digits_say_the_number(i as nat);
    }
}

} // verus!
