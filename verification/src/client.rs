//! The 9p2000.L client, without its I/O: tags and fids, the requests, and the routing of responses.
//!
//! Whoever owns the transport sends the bytes of a [`Request`], hands every chunk that arrives to
//! [`NineClient::receive`], and wakes the requests that it names by their tags. Requests may be in
//! flight at the same time; a tag is allocated for each.

use crate::calls;
use crate::calls::{Answer, AnswerOf, Call, CallOf, EIO};
use crate::frame;
use crate::frame::{Frame, FrameView};
use crate::ninep;
use crate::ninep::{Qid, W};
use crate::text;
use std::collections::HashSet;
use vstd::prelude::*;

verus! {

/// The tag of a version request, which no other request uses.
pub const NOTAG: u16 = 0xffff;

/// The fid of the export's root.
pub const ROOT_FID: u32 = 1;

/// The smallest message size that a server may negotiate.
pub const MIN_MSIZE: u32 = 4096;

/// A request on its way: its tag, the type that its response must have, and the bytes to send.
#[derive(Debug, PartialEq, Eq)]
pub struct Request {
    pub tag: u16,
    pub expect: u8,
    pub frame: Vec<u8>,
}

/// A response for the request that waits under `tag`.
#[derive(Debug, PartialEq, Eq)]
pub struct Delivery {
    pub tag: u16,
    pub frame: Frame,
}

/// What a `Delivery` stands for.
pub struct DeliveryView {
    pub tag: u16,
    pub frame: FrameView,
}

impl View for Delivery {
    type V = DeliveryView;

    open spec fn view(&self) -> DeliveryView {
        DeliveryView { tag: self.tag, frame: self.frame@ }
    }
}

/// The views of a list of deliveries.
pub open spec fn delivery_views(d: Seq<Delivery>) -> Seq<DeliveryView> {
    d.map_values(|d: Delivery| d@)
}

/// The tag at the front of a frame that was just cut out of the stream.
pub open spec fn tag_of(f: FrameView) -> u16 {
    ninep::field(f.body, 0, 2) as u16
}

/// A frame without its tag.
pub open spec fn payload_of(f: FrameView) -> FrameView {
    FrameView { typ: f.typ, body: f.body.skip(2) }
}

/// Which requests the frames answer: each frame goes to the request that waits under its tag, and a
/// frame that no request waits for is dropped.
pub open spec fn routed(frames: Seq<FrameView>, waiting: Set<u16>) -> Seq<DeliveryView>
    decreases frames.len(),
{
    if frames.len() == 0 {
        Seq::empty()
    } else {
        let tag = tag_of(frames[0]);
        let rest = routed(frames.drop_first(), waiting.remove(tag));
        if waiting.contains(tag) {
            seq![DeliveryView { tag, frame: payload_of(frames[0]) }] + rest
        } else {
            rest
        }
    }
}

/// The requests that still wait after the frames were routed.
pub open spec fn still_waiting(frames: Seq<FrameView>, waiting: Set<u16>) -> Set<u16>
    decreases frames.len(),
{
    if frames.len() == 0 {
        waiting
    } else {
        still_waiting(frames.drop_first(), waiting.remove(tag_of(frames[0])))
    }
}

/// Routing frames in two batches is routing them in one.
pub proof fn routing_is_batching_independent(a: Seq<FrameView>, b: Seq<FrameView>, waiting: Set<u16>)
    ensures
        routed(a + b, waiting) == routed(a, waiting) + routed(b, still_waiting(a, waiting)),
        still_waiting(a + b, waiting) == still_waiting(b, still_waiting(a, waiting)),
    decreases a.len(),
{
    if a.len() == 0 {
        assert(a + b =~= b);
        assert(Seq::<DeliveryView>::empty() + routed(b, waiting) =~= routed(b, waiting));
    } else {
        let tag = tag_of(a[0]);
        assert((a + b).drop_first() =~= a.drop_first() + b);
        routing_is_batching_independent(a.drop_first(), b, waiting.remove(tag));
        let later = routed(b, still_waiting(a, waiting));
        let first = seq![DeliveryView { tag, frame: payload_of(a[0]) }];
        let mid = routed(a.drop_first(), waiting.remove(tag));
        assert(first + (mid + later) =~= (first + mid) + later);
    }
}

/// A request is answered at most once, only while it waits, and only by a frame that carries its
/// tag; a request that no frame names keeps waiting.
pub proof fn routing_answers_waiting_requests(frames: Seq<FrameView>, waiting: Set<u16>, tag: u16)
    ensures
        still_waiting(frames, waiting).contains(tag) <==> waiting.contains(tag) && !(exists|i: int|
            0 <= i < frames.len() && tag_of(#[trigger] frames[i]) == tag),
        forall|i: int|
            0 <= i < routed(frames, waiting).len() ==> waiting.contains(
                (#[trigger] routed(frames, waiting)[i]).tag,
            ),
        forall|i: int, j: int|
            0 <= i < j < routed(frames, waiting).len() ==> (#[trigger] routed(
                frames,
                waiting,
            )[i]).tag != (#[trigger] routed(frames, waiting)[j]).tag,
    decreases frames.len(),
{
    if frames.len() > 0 {
        let t0 = tag_of(frames[0]);
        let rest = frames.drop_first();
        routing_answers_waiting_requests(rest, waiting.remove(t0), tag);
        assert forall|i: int| 0 <= i < rest.len() implies #[trigger] rest[i] == frames[i + 1] by {}
        if exists|i: int| 0 <= i < frames.len() && tag_of(#[trigger] frames[i]) == tag {
            let i = choose|i: int| 0 <= i < frames.len() && tag_of(#[trigger] frames[i]) == tag;
            if i > 0 {
                assert(tag_of(rest[i - 1]) == tag);
            }
        }
        if exists|i: int| 0 <= i < rest.len() && tag_of(#[trigger] rest[i]) == tag {
            let i = choose|i: int| 0 <= i < rest.len() && tag_of(#[trigger] rest[i]) == tag;
            assert(tag_of(frames[i + 1]) == tag);
        }
        let tail = routed(rest, waiting.remove(t0));
        if waiting.contains(t0) {
            assert forall|i: int| 0 < i < routed(frames, waiting).len() implies #[trigger] routed(
                frames,
                waiting,
            )[i] == tail[i - 1] by {}
        }
    }
}

/// The state of a client.
pub struct ClientView {
    /// What has arrived of a message that is not whole yet.
    pub acc: Seq<u8>,
    /// The tags under which requests wait for their response.
    pub waiting: Set<u16>,
    pub next_tag: u16,
    pub next_fid: u32,
    pub msize: u32,
    pub root_fid: u32,
}

/// A 9p2000.L client, without its I/O.
pub struct NineClient {
    acc: Vec<u8>,
    pending: HashSet<u16>,
    next_tag: u16,
    next_fid: u32,
    pub msize: u32,
    pub root_fid: u32,
}

impl View for NineClient {
    type V = ClientView;

    closed spec fn view(&self) -> ClientView {
        ClientView {
            acc: self.acc@,
            waiting: self.pending@,
            next_tag: self.next_tag,
            next_fid: self.next_fid,
            msize: self.msize,
            root_fid: self.root_fid,
        }
    }
}

/// A client that has not sent or received anything.
pub open spec fn fresh_client(msize: u32) -> ClientView {
    ClientView {
        acc: Seq::empty(),
        waiting: Set::empty(),
        next_tag: 0,
        next_fid: (ROOT_FID + 1) as u32,
        msize,
        root_fid: ROOT_FID,
    }
}

/// The first tag from `next` on that is free for a request.
pub open spec fn free_tag(next: u16) -> u16 {
    if next == NOTAG {
        0
    } else {
        next
    }
}

/// That `r` is a request of type `mtype` with `body`, just issued under a fresh tag.
pub open spec fn issued(
    before: ClientView,
    after: ClientView,
    r: Request,
    mtype: u8,
    expect: u8,
    body: Seq<u8>,
) -> bool {
    &&& r.tag == free_tag(before.next_tag)
    &&& r.expect == expect
    &&& r.frame@ == frame::frame_bytes(mtype, r.tag, body)
    &&& after == (ClientView {
        next_tag: (r.tag + 1) as u16,
        waiting: before.waiting.insert(r.tag),
        ..before
    })
}

/// That `r` is the given call, just issued under a fresh tag. Its response has the next type.
pub open spec fn called(
    before: ClientView,
    after: ClientView,
    r: Request,
    call: calls::CallView,
) -> bool {
    issued(
        before,
        after,
        r,
        calls::call_type(call),
        (calls::call_type(call) + 1) as u8,
        calls::call_body(call),
    )
}

/// The error number in an Rlerror body, or an I/O error where it is cut short.
pub open spec fn error_in(body: Seq<u8>) -> i32 {
    if body.len() >= 4 {
        (ninep::field(body, 0, 4) as u32) as i32
    } else {
        EIO
    }
}

/// What a waiting request makes of what reached it. `None` is that the transport dropped it.
pub open spec fn settled(arrived: Option<FrameView>) -> Result<FrameView, i32> {
    match arrived {
        Some(f) => if f.typ == ninep::RLERROR {
            Err(error_in(f.body))
        } else {
            Ok(f)
        },
        None => Err(EIO),
    }
}

/// As `settled`, for a request whose response must have the type `expect`: the response's body.
pub open spec fn checked(expect: u8, arrived: Option<FrameView>) -> Result<Seq<u8>, i32> {
    match settled(arrived) {
        Ok(f) => if f.typ == expect {
            Ok(f.body)
        } else {
            Err(EIO)
        },
        Err(e) => Err(e),
    }
}

/// What comes of a call when `arrived` reaches it.
pub open spec fn concluded(call: calls::CallView, arrived: Option<FrameView>) -> calls::Outcome {
    match checked((calls::call_type(call) + 1) as u8, arrived) {
        Ok(body) => match calls::answer_in(call, body) {
            Some(a) => Ok(a),
            None => Err(EIO),
        },
        Err(e) => Err(e),
    }
}

/// A frame that may not have come, by its view.
pub open spec fn arrived_view(arrived: Option<Frame>) -> Option<FrameView> {
    match arrived {
        Some(f) => Some(f@),
        None => None,
    }
}

/// The outcome of an exchange: an error number on Rlerror, an I/O error when the transport dropped
/// the request, else the response.
pub fn settle(arrived: Option<Frame>) -> (r: Result<Frame, i32>)
    ensures
        match r {
            Ok(f) => settled(arrived_view(arrived)) == Ok::<FrameView, i32>(f@),
            Err(e) => settled(arrived_view(arrived)) == Err::<FrameView, i32>(e),
        },
{
    match arrived {
        Some(f) => {
            if f.typ == ninep::RLERROR {
                match ninep::R::new(f.body.as_slice()).u32() {
                    Some(ecode) => Err(ecode as i32),
                    None => Err(EIO),
                }
            } else {
                Ok(f)
            }
        },
        None => Err(EIO),
    }
}

/// Like `settle`, but checks the response's type and answers with just its body.
pub fn check(expect: u8, arrived: Option<Frame>) -> (r: Result<Vec<u8>, i32>)
    ensures
        match r {
            Ok(b) => checked(expect, arrived_view(arrived)) == Ok::<Seq<u8>, i32>(b@),
            Err(e) => checked(expect, arrived_view(arrived)) == Err::<Seq<u8>, i32>(e),
        },
{
    match settle(arrived) {
        Ok(f) => {
            if f.typ != expect {
                Err(EIO)
            } else {
                Ok(f.body)
            }
        },
        Err(e) => Err(e),
    }
}

/// The outcome of a call: the decoded answer, or an error number. A walk that succeeds has one qid
/// per name.
pub fn conclude(call: &Call, arrived: Option<Frame>) -> (r: Result<Answer, i32>)
    ensures
        calls::outcome_view(r) == concluded(call@, arrived_view(arrived)),
        call@ matches CallOf::Walk { names, .. } ==> (r matches Ok(AnswerOf::Qids(q)) ==> q@.len()
            == names.len()),
{
    match check(calls::response_type(call), arrived) {
        Ok(body) => calls::decode_answer(call, body.as_slice()),
        Err(e) => Err(e),
    }
}

proof fn lemma_from_empty(s: Seq<u8>)
    ensures
        Seq::<u8>::empty() + s == s,
{
    assert(Seq::<u8>::empty() + s =~= s);
}

impl NineClient {
    /// A client that has sent nothing yet and will ask for messages of up to `msize` bytes.
    pub fn new(msize: u32) -> (c: Self)
        ensures
            c@ == fresh_client(msize),
    {
        NineClient {
            acc: Vec::new(),
            pending: HashSet::new(),
            next_tag: 0,
            next_fid: ROOT_FID + 1,
            msize,
            root_fid: ROOT_FID,
        }
    }

    /// Routes a frame that was just cut out of the stream to the request that waits under its tag.
    fn dispatch(&mut self, f: Frame) -> (r: Option<Delivery>)
        requires
            f.body@.len() >= 2,
        ensures
            final(self)@ == (ClientView {
                waiting: old(self)@.waiting.remove(tag_of(f@)),
                ..old(self)@
            }),
            match r {
                Some(d) => {
                    &&& old(self)@.waiting.contains(tag_of(f@))
                    &&& d@ == (DeliveryView { tag: tag_of(f@), frame: payload_of(f@) })
                },
                None => !old(self)@.waiting.contains(tag_of(f@)),
            },
    {
        broadcast use vstd::std_specs::hash::group_hash_axioms;

        let tag: u16 = match ninep::R::new(f.body.as_slice()).u16() {
            Some(t) => t,
            None => 0,
        };
        let ghost before = self@;
        let waited: bool = self.pending.remove(&tag);
        assert(self@.waiting =~= before.waiting.remove(tag));
        if waited {
            let body: Vec<u8> = vstd::slice::slice_to_vec(
                vstd::slice::slice_subrange(f.body.as_slice(), 2, f.body.len()),
            );
            assert(body@ =~= f.body@.skip(2));
            Some(Delivery { tag, frame: Frame { typ: f.typ, body } })
        } else {
            None
        }
    }

    /// Takes a chunk that arrived, and answers with the responses that are now whole, each for the
    /// request that waits under its tag.
    pub fn receive(&mut self, chunk: &[u8]) -> (out: Vec<Delivery>)
        ensures
            delivery_views(out@) == routed(
                frame::frames_in(old(self)@.acc + chunk@),
                old(self)@.waiting,
            ),
            final(self)@ == (ClientView {
                acc: frame::left_in(old(self)@.acc + chunk@),
                waiting: still_waiting(
                    frame::frames_in(old(self)@.acc + chunk@),
                    old(self)@.waiting,
                ),
                ..old(self)@
            }),
    {
        let ghost start = self@;
        ninep::push_slice(&mut self.acc, chunk);
        let ghost bytes = start.acc + chunk@;
        let ghost all = routed(frame::frames_in(bytes), start.waiting);
        let mut out: Vec<Delivery> = Vec::new();
        assert(delivery_views(out@) + all =~= all);
        loop
            invariant_except_break
                all == delivery_views(out@) + routed(frame::frames_in(self@.acc), self@.waiting),
                still_waiting(frame::frames_in(bytes), start.waiting) == still_waiting(
                    frame::frames_in(self@.acc),
                    self@.waiting,
                ),
                frame::left_in(bytes) == frame::left_in(self@.acc),
                self@ == (ClientView { acc: self@.acc, waiting: self@.waiting, ..start }),
            ensures
                all == delivery_views(out@),
                self@ == (ClientView {
                    acc: frame::left_in(bytes),
                    waiting: still_waiting(frame::frames_in(bytes), start.waiting),
                    ..start
                }),
            decreases self@.acc.len(),
        {
            let ghost acc = self@.acc;
            let ghost waiting = self@.waiting;
            let ghost frames = frame::frames_in(acc);
            let f: Frame = match frame::take_frame(&mut self.acc) {
                Some(f) => f,
                None => {
                    assert(delivery_views(out@) + Seq::<DeliveryView>::empty() =~= delivery_views(
                        out@,
                    ));
                    break;
                },
            };
            assert(frames.drop_first() =~= frame::frames_in(self@.acc));
            let ghost later = routed(frames.drop_first(), waiting.remove(tag_of(f@)));
            match self.dispatch(f) {
                Some(d) => {
                    proof {
                        assert(delivery_views(out@.push(d)) =~= delivery_views(out@).push(d@));
                        assert(delivery_views(out@).push(d@) + later =~= delivery_views(out@) + (
                        seq![d@] + later));
                    }
                    out.push(d);
                },
                None => {},
            }
        }
        out
    }

    /// The transport is gone: no request waits any more.
    pub fn close(&mut self)
        ensures
            final(self)@ == (ClientView { waiting: Set::empty(), ..old(self)@ }),
    {
        self.pending.clear();
    }

    /// A request could not be sent: it does not wait any more.
    pub fn abandon(&mut self, tag: u16)
        ensures
            final(self)@ == (ClientView {
                waiting: old(self)@.waiting.remove(tag),
                ..old(self)@
            }),
    {
        broadcast use vstd::std_specs::hash::group_hash_axioms;

        let ghost before = self@;
        self.pending.remove(&tag);
        assert(self@.waiting =~= before.waiting.remove(tag));
    }

    /// The tag for the next request. The one for version requests is passed over.
    pub fn alloc_tag(&mut self) -> (tag: u16)
        ensures
            takes_tag(old(self)@, final(self)@, tag),
            final(self)@ == (ClientView { next_tag: (tag + 1) as u16, ..old(self)@ }),
    {
        let tag: u16 = if self.next_tag == NOTAG {
            0
        } else {
            self.next_tag
        };
        self.next_tag = tag + 1;
        tag
    }

    /// The largest message that may be sent: what the server was asked for and, once it has answered,
    /// no more than it agreed to.
    pub fn msize(&self) -> (n: u32)
        ensures
            n == self@.msize,
    {
        self.msize
    }

    /// The fid of the export's root.
    pub fn root_fid(&self) -> (fid: u32)
        ensures
            fid == self@.root_fid,
    {
        self.root_fid
    }

    /// A fid that has not been handed out before (until the numbers run out and start over).
    pub fn alloc_fid(&mut self) -> (fid: u32)
        ensures
            fid == old(self)@.next_fid,
            final(self)@ == (ClientView {
                next_fid: next_fid(old(self)@.next_fid),
                ..old(self)@
            }),
    {
        let fid: u32 = self.next_fid;
        self.next_fid = if fid == u32::MAX {
            0
        } else {
            fid + 1
        };
        fid
    }

    /// Makes a request under `tag`, which waits from now on.
    fn transact(&mut self, mtype: u8, tag: u16, body: &[u8]) -> (bytes: Vec<u8>)
        ensures
            bytes@ == frame::frame_bytes(mtype, tag, body@),
            final(self)@ == (ClientView {
                waiting: old(self)@.waiting.insert(tag),
                ..old(self)@
            }),
    {
        broadcast use vstd::std_specs::hash::group_hash_axioms;

        self.pending.insert(tag);
        frame::encode_frame(mtype, tag, body)
    }

    /// Makes a request under a fresh tag.
    fn req(&mut self, mtype: u8, expect: u8, body: &[u8]) -> (r: Request)
        ensures
            issued(old(self)@, final(self)@, r, mtype, expect, body@),
    {
        let tag: u16 = self.alloc_tag();
        let frame: Vec<u8> = self.transact(mtype, tag, body);
        Request { tag, expect, frame }
    }

    /// Walk `names` from `fid` into the fresh `newfid`. Without names, `newfid` becomes a clone of
    /// `fid`.
    pub fn walk(&mut self, fid: u32, newfid: u32, names: &[&str]) -> (r: Request)
        ensures
            called(
                old(self)@,
                final(self)@,
                r,
                CallOf::Walk { fid, newfid, names: names@.map_values(|n: &str| n@) },
            ),
    {
        let mut w = W::new();
        let count: u16 = (names.len() % 65536) as u16;
        w.u32(fid).u32(newfid).u16(count);
        proof {
            lemma_from_empty(calls::le32(fid));
        }
        let ghost views = names@.map_values(|n: &str| n@);
        let ghost front = w.buf@;
        let mut i: usize = 0;
        let n: usize = names.len();
        proof {
            assert(views.subrange(0, 0) =~= Seq::<Seq<char>>::empty());
            assert(front + Seq::<u8>::empty() =~= front);
        }
        while i < n
            invariant
                i <= n,
                n == names@.len(),
                views == names@.map_values(|n: &str| n@),
                w.buf@ == front + calls::names_bytes(views.subrange(0, i as int)),
            decreases n - i,
        {
            w.str(names[i]);
            proof {
                let done = views.subrange(0, i as int);
                let more = views.subrange(0, i + 1);
                assert(more.drop_last() =~= done);
                assert(more.last() == names@[i as int]@);
                assert(front + calls::names_bytes(done) + ninep::str_bytes(names@[i as int]@)
                    =~= front + calls::names_bytes(more));
            }
            i = i + 1;
        }
        assert(views.subrange(0, n as int) =~= views);
        self.req(ninep::TWALK, ninep::RWALK, w.buf.as_slice())
    }

    pub fn getattr(&mut self, fid: u32) -> (r: Request)
        ensures
            called(old(self)@, final(self)@, r, CallOf::Getattr { fid }),
    {
        let mut w = W::new();
        w.u32(fid).u64(ninep::GETATTR_ALL);
        proof {
            lemma_from_empty(calls::le32(fid));
        }
        self.req(ninep::TGETATTR, ninep::RGETATTR, w.buf.as_slice())
    }

    #[allow(clippy::too_many_arguments)]
    pub fn setattr(
        &mut self,
        fid: u32,
        valid: u32,
        mode: u32,
        uid: u32,
        gid: u32,
        size: u64,
        atime: (u64, u64),
        mtime: (u64, u64),
    ) -> (r: Request)
        ensures
            called(
                old(self)@,
                final(self)@,
                r,
                CallOf::Setattr { fid, valid, mode, uid, gid, size, atime, mtime },
            ),
    {
        let mut w = W::new();
        w.u32(fid).u32(valid).u32(mode).u32(uid).u32(gid).u64(size);
        w.u64(atime.0).u64(atime.1).u64(mtime.0).u64(mtime.1);
        proof {
            lemma_from_empty(calls::le32(fid));
        }
        self.req(ninep::TSETATTR, ninep::RSETATTR, w.buf.as_slice())
    }

    /// Open an existing fid for I/O.
    pub fn lopen(&mut self, fid: u32, flags: u32) -> (r: Request)
        ensures
            called(old(self)@, final(self)@, r, CallOf::Lopen { fid, flags }),
    {
        let mut w = W::new();
        w.u32(fid).u32(flags);
        proof {
            lemma_from_empty(calls::le32(fid));
        }
        self.req(ninep::TLOPEN, ninep::RLOPEN, w.buf.as_slice())
    }

    /// Create a file in the directory `dfid` and leave `dfid` opened on the new file.
    pub fn lcreate(
        &mut self,
        dfid: u32,
        name: &str,
        flags: u32,
        mode: u32,
        gid: u32,
    ) -> (r: Request)
        ensures
            called(
                old(self)@,
                final(self)@,
                r,
                CallOf::Lcreate { dfid, name: name@, flags, mode, gid },
            ),
    {
        let mut w = W::new();
        w.u32(dfid).str(name).u32(flags).u32(mode).u32(gid);
        proof {
            lemma_from_empty(calls::le32(dfid));
        }
        self.req(ninep::TLCREATE, ninep::RLCREATE, w.buf.as_slice())
    }

    pub fn mkdir(&mut self, dfid: u32, name: &str, mode: u32, gid: u32) -> (r: Request)
        ensures
            called(old(self)@, final(self)@, r, CallOf::Mkdir { dfid, name: name@, mode, gid }),
    {
        let mut w = W::new();
        w.u32(dfid).str(name).u32(mode).u32(gid);
        proof {
            lemma_from_empty(calls::le32(dfid));
        }
        self.req(ninep::TMKDIR, ninep::RMKDIR, w.buf.as_slice())
    }

    pub fn readdir(&mut self, fid: u32, offset: u64, count: u32) -> (r: Request)
        ensures
            called(old(self)@, final(self)@, r, CallOf::Readdir { fid, offset, count }),
    {
        let mut w = W::new();
        w.u32(fid).u64(offset).u32(count);
        proof {
            lemma_from_empty(calls::le32(fid));
        }
        self.req(ninep::TREADDIR, ninep::RREADDIR, w.buf.as_slice())
    }

    pub fn read(&mut self, fid: u32, offset: u64, count: u32) -> (r: Request)
        ensures
            called(old(self)@, final(self)@, r, CallOf::Read { fid, offset, count }),
    {
        let mut w = W::new();
        w.u32(fid).u64(offset).u32(count);
        proof {
            lemma_from_empty(calls::le32(fid));
        }
        self.req(ninep::TREAD, ninep::RREAD, w.buf.as_slice())
    }

    pub fn write(&mut self, fid: u32, offset: u64, data: &[u8]) -> (r: Request)
        ensures
            called(old(self)@, final(self)@, r, CallOf::Write { fid, offset, data: data@ }),
    {
        let mut w = W::new();
        let count: u32 = (data.len() as u64 % 0x1_0000_0000) as u32;
        w.u32(fid).u64(offset).u32(count).bytes(data);
        proof {
            lemma_from_empty(calls::le32(fid));
        }
        self.req(ninep::TWRITE, ninep::RWRITE, w.buf.as_slice())
    }

    pub fn clunk(&mut self, fid: u32) -> (r: Request)
        ensures
            called(old(self)@, final(self)@, r, CallOf::Clunk { fid }),
    {
        let mut w = W::new();
        w.u32(fid);
        proof {
            lemma_from_empty(calls::le32(fid));
        }
        self.req(ninep::TCLUNK, ninep::RCLUNK, w.buf.as_slice())
    }

    /// `flags` is 0 to unlink a file, `AT_REMOVEDIR` to remove a directory.
    pub fn unlinkat(&mut self, dfid: u32, name: &str, flags: u32) -> (r: Request)
        ensures
            called(old(self)@, final(self)@, r, CallOf::Unlinkat { dfid, name: name@, flags }),
    {
        let mut w = W::new();
        w.u32(dfid).str(name).u32(flags);
        proof {
            lemma_from_empty(calls::le32(dfid));
        }
        self.req(ninep::TUNLINKAT, ninep::RUNLINKAT, w.buf.as_slice())
    }

    pub fn fsync(&mut self, fid: u32) -> (r: Request)
        ensures
            called(old(self)@, final(self)@, r, CallOf::Fsync { fid }),
    {
        let mut w = W::new();
        w.u32(fid).u32(0);
        proof {
            lemma_from_empty(calls::le32(fid));
        }
        self.req(ninep::TFSYNC, ninep::RFSYNC, w.buf.as_slice())
    }

    pub fn renameat(
        &mut self,
        olddfid: u32,
        oldname: &str,
        newdfid: u32,
        newname: &str,
    ) -> (r: Request)
        ensures
            called(
                old(self)@,
                final(self)@,
                r,
                CallOf::Renameat { olddfid, oldname: oldname@, newdfid, newname: newname@ },
            ),
    {
        let mut w = W::new();
        w.u32(olddfid).str(oldname).u32(newdfid).str(newname);
        proof {
            lemma_from_empty(calls::le32(olddfid));
        }
        self.req(ninep::TRENAMEAT, ninep::RRENAMEAT, w.buf.as_slice())
    }

    /// Create the symlink `name` to `target` in the directory `dfid`.
    pub fn symlink(&mut self, dfid: u32, name: &str, target: &str, gid: u32) -> (r: Request)
        ensures
            called(
                old(self)@,
                final(self)@,
                r,
                CallOf::Symlink { dfid, name: name@, target: target@, gid },
            ),
    {
        let mut w = W::new();
        w.u32(dfid).str(name).str(target).u32(gid);
        proof {
            lemma_from_empty(calls::le32(dfid));
        }
        self.req(ninep::TSYMLINK, ninep::RSYMLINK, w.buf.as_slice())
    }

    pub fn readlink(&mut self, fid: u32) -> (r: Request)
        ensures
            called(old(self)@, final(self)@, r, CallOf::Readlink { fid }),
    {
        let mut w = W::new();
        w.u32(fid);
        proof {
            lemma_from_empty(calls::le32(fid));
        }
        self.req(ninep::TREADLINK, ninep::RREADLINK, w.buf.as_slice())
    }

    pub fn statfs(&mut self, fid: u32) -> (r: Request)
        ensures
            called(old(self)@, final(self)@, r, CallOf::Statfs { fid }),
    {
        let mut w = W::new();
        w.u32(fid);
        proof {
            lemma_from_empty(calls::le32(fid));
        }
        self.req(ninep::TSTATFS, ninep::RSTATFS, w.buf.as_slice())
    }

    /// Makes the given call.
    pub fn request(&mut self, call: &Call) -> (r: Request)
        ensures
            called(old(self)@, final(self)@, r, call@),
    {
        match call {
            CallOf::Walk { fid, newfid, names } => {
                let mut refs: Vec<&str> = Vec::new();
                let mut i: usize = 0;
                while i < names.len()
                    invariant
                        i <= names@.len(),
                        refs@.len() == i,
                        forall|j: int| 0 <= j < i ==> (#[trigger] refs@[j])@ == names@[j]@,
                    decreases names.len() - i,
                {
                    refs.push(names[i].as_str());
                    i = i + 1;
                }
                assert(refs@.map_values(|n: &str| n@) =~= calls::name_views(names@));
                self.walk(*fid, *newfid, refs.as_slice())
            },
            CallOf::Getattr { fid } => self.getattr(*fid),
            CallOf::Setattr { fid, valid, mode, uid, gid, size, atime, mtime } => self.setattr(
                *fid,
                *valid,
                *mode,
                *uid,
                *gid,
                *size,
                *atime,
                *mtime,
            ),
            CallOf::Lopen { fid, flags } => self.lopen(*fid, *flags),
            CallOf::Lcreate { dfid, name, flags, mode, gid } => self.lcreate(
                *dfid,
                name.as_str(),
                *flags,
                *mode,
                *gid,
            ),
            CallOf::Mkdir { dfid, name, mode, gid } => self.mkdir(
                *dfid,
                name.as_str(),
                *mode,
                *gid,
            ),
            CallOf::Readdir { fid, offset, count } => self.readdir(*fid, *offset, *count),
            CallOf::Read { fid, offset, count } => self.read(*fid, *offset, *count),
            CallOf::Write { fid, offset, data } => self.write(*fid, *offset, data.as_slice()),
            CallOf::Clunk { fid } => self.clunk(*fid),
            CallOf::Unlinkat { dfid, name, flags } => self.unlinkat(*dfid, name.as_str(), *flags),
            CallOf::Fsync { fid } => self.fsync(*fid),
            CallOf::Renameat { olddfid, oldname, newdfid, newname } => self.renameat(
                *olddfid,
                oldname.as_str(),
                *newdfid,
                newname.as_str(),
            ),
            CallOf::Symlink { dfid, name, target, gid } => self.symlink(
                *dfid,
                name.as_str(),
                target.as_str(),
                *gid,
            ),
            CallOf::Readlink { fid } => self.readlink(*fid),
            CallOf::Statfs { fid } => self.statfs(*fid),
        }
    }
}

/// Why a connection could not be set up. `S` is the type of a text.
#[derive(Debug, PartialEq, Eq)]
pub enum ConnectErrorOf<S> {
    /// The version request was answered with an error, or not at all.
    VersionFailed(i32),
    /// The version request was answered by some other message.
    NoVersion,
    ShortVersion,
    /// The server speaks this, not 9P2000.L.
    WrongVersion(S),
    /// The server does not take messages of a useful size.
    TinyMsize(u32),
    AttachFailed(i32),
    ShortAttach,
}

pub type ConnectError = ConnectErrorOf<String>;

pub type ConnectErrorView = ConnectErrorOf<Seq<char>>;

impl View for ConnectErrorOf<String> {
    type V = ConnectErrorView;

    open spec fn view(&self) -> ConnectErrorView {
        match *self {
            ConnectErrorOf::VersionFailed(e) => ConnectErrorOf::VersionFailed(e),
            ConnectErrorOf::NoVersion => ConnectErrorOf::NoVersion,
            ConnectErrorOf::ShortVersion => ConnectErrorOf::ShortVersion,
            ConnectErrorOf::WrongVersion(v) => ConnectErrorOf::WrongVersion(v@),
            ConnectErrorOf::TinyMsize(n) => ConnectErrorOf::TinyMsize(n),
            ConnectErrorOf::AttachFailed(e) => ConnectErrorOf::AttachFailed(e),
            ConnectErrorOf::ShortAttach => ConnectErrorOf::ShortAttach,
        }
    }
}

/// A connection error in words.
pub open spec fn connect_message(e: ConnectErrorView) -> Seq<char> {
    match e {
        ConnectErrorOf::VersionFailed(e) => "Tversion failed: errno "@ + text::decimal(e as int),
        ConnectErrorOf::NoVersion => "server did not answer Tversion"@,
        ConnectErrorOf::ShortVersion => "short Rversion"@,
        ConnectErrorOf::WrongVersion(v) => "server speaks "@ + v + ", not 9P2000.L"@,
        ConnectErrorOf::TinyMsize(n) => "server negotiated tiny msize "@ + text::decimal(n as int),
        ConnectErrorOf::AttachFailed(e) => "Tattach failed: errno "@ + text::decimal(e as int),
        ConnectErrorOf::ShortAttach => "short Rattach"@,
    }
}

impl ConnectErrorOf<String> {
    pub fn message(&self) -> (s: String)
        ensures
            s@ == connect_message(self@),
    {
        match self {
            ConnectErrorOf::VersionFailed(e) => {
                let mut s = "Tversion failed: errno ".to_string();
                text::push_decimal(&mut s, *e as i64);
                s
            },
            ConnectErrorOf::NoVersion => "server did not answer Tversion".to_string(),
            ConnectErrorOf::ShortVersion => "short Rversion".to_string(),
            ConnectErrorOf::WrongVersion(v) => {
                let mut s = "server speaks ".to_string();
                s.append(v.as_str());
                s.append(", not 9P2000.L");
                s
            },
            ConnectErrorOf::TinyMsize(n) => {
                let mut s = "server negotiated tiny msize ".to_string();
                text::push_decimal(&mut s, *n as i64);
                s
            },
            ConnectErrorOf::AttachFailed(e) => {
                let mut s = "Tattach failed: errno ".to_string();
                text::push_decimal(&mut s, *e as i64);
                s
            },
            ConnectErrorOf::ShortAttach => "short Rattach".to_string(),
        }
    }
}

/// The body of a version request.
pub open spec fn version_body(msize: u32) -> Seq<u8> {
    calls::le32(msize) + ninep::str_bytes("9P2000.L"@)
}

/// The body of an attach request.
pub open spec fn attach_body(
    fid: u32,
    uname: Seq<char>,
    aname: Seq<char>,
    n_uname: u32,
) -> Seq<u8> {
    calls::le32(fid) + calls::le32(ninep::NOFID) + ninep::str_bytes(uname) + ninep::str_bytes(aname)
        + calls::le32(n_uname)
}

/// That the attach request for the export `aname` was sent, on behalf of the user `n_uname`.
pub open spec fn attaching(
    before: ClientView,
    after: ClientView,
    r: Request,
    aname: Seq<char>,
    n_uname: u32,
) -> bool {
    issued(
        before,
        after,
        r,
        ninep::TATTACH,
        ninep::RATTACH,
        attach_body(ROOT_FID, "user"@, aname, n_uname),
    )
}

/// What comes of the version request: the negotiated message size.
pub open spec fn negotiated(arrived: Option<FrameView>) -> Result<u32, ConnectErrorView> {
    match settled(arrived) {
        Err(e) => Err(ConnectErrorOf::VersionFailed(e)),
        Ok(f) => if f.typ != ninep::RVERSION {
            Err(ConnectErrorOf::NoVersion)
        } else if f.body.len() < 4 || !ninep::has_str(f.body.skip(4)) {
            Err(ConnectErrorOf::ShortVersion)
        } else {
            let version = ninep::text_of(ninep::str_payload(f.body.skip(4)));
            if version != "9P2000.L"@ {
                Err(ConnectErrorOf::WrongVersion(version))
            } else {
                Ok(ninep::field(f.body, 0, 4) as u32)
            }
        },
    }
}

/// What comes of the attach request: the qid of the export's root.
pub open spec fn attached(arrived: Option<FrameView>) -> Result<Qid, ConnectErrorView> {
    match checked(ninep::RATTACH, arrived) {
        Err(e) => Err(ConnectErrorOf::AttachFailed(e)),
        Ok(body) => if body.len() >= 13 {
            Ok(ninep::qid_at(body, 0))
        } else {
            Err(ConnectErrorOf::ShortAttach)
        },
    }
}

/// Decodes the response to the version request: the message size that the server agrees to.
pub fn version_reply(arrived: Option<Frame>) -> (r: Result<u32, ConnectError>)
    ensures
        match r {
            Ok(n) => negotiated(arrived_view(arrived)) == Ok::<u32, ConnectErrorView>(n),
            Err(e) => negotiated(arrived_view(arrived)) == Err::<u32, ConnectErrorView>(e@),
        },
{
    let f: Frame = match settle(arrived) {
        Ok(f) => f,
        Err(e) => {
            return Err(ConnectErrorOf::VersionFailed(e));
        },
    };
    if f.typ != ninep::RVERSION {
        return Err(ConnectErrorOf::NoVersion);
    }
    let mut r = ninep::R::new(f.body.as_slice());
    let neg: u32 = match r.u32() {
        Some(n) => n,
        None => {
            return Err(ConnectErrorOf::ShortVersion);
        },
    };
    let version: String = match r.str() {
        Some(v) => v,
        None => {
            return Err(ConnectErrorOf::ShortVersion);
        },
    };
    if version != "9P2000.L".to_string() {
        return Err(ConnectErrorOf::WrongVersion(version));
    }
    Ok(neg)
}

/// Decodes the response to the attach request: the qid of the export's root.
pub fn attach_reply(arrived: Option<Frame>) -> (r: Result<Qid, ConnectError>)
    ensures
        match r {
            Ok(q) => attached(arrived_view(arrived)) == Ok::<Qid, ConnectErrorView>(q),
            Err(e) => attached(arrived_view(arrived)) == Err::<Qid, ConnectErrorView>(e@),
        },
{
    match check(ninep::RATTACH, arrived) {
        Ok(body) => match ninep::R::new(body.as_slice()).qid() {
            Some(q) => Ok(q),
            None => Err(ConnectErrorOf::ShortAttach),
        },
        Err(e) => Err(ConnectErrorOf::AttachFailed(e)),
    }
}

/// The message size that a server offers which is attached to, or why it is not: it must speak the
/// protocol and take messages of a useful size.
pub open spec fn accepted(arrived: Option<FrameView>) -> Result<u32, ConnectErrorView> {
    match negotiated(arrived) {
        Ok(n) => if n < MIN_MSIZE {
            Err(ConnectErrorView::TinyMsize(n))
        } else {
            Ok(n)
        },
        Err(why) => Err(why),
    }
}

/// The message size to use when `asked` was asked for and the server offered `n`.
pub open spec fn agreed(asked: u32, n: u32) -> u32 {
    if n < asked {
        n
    } else {
        asked
    }
}

impl NineClient {
    /// The request that opens a connection. It goes under the tag that no other request uses.
    fn version(&mut self, msize: u32) -> (r: Request)
        ensures
            r.tag == NOTAG,
            r.expect == ninep::RVERSION,
            r.frame@ == frame::frame_bytes(ninep::TVERSION, NOTAG, version_body(msize)),
            final(self)@ == (ClientView {
                waiting: old(self)@.waiting.insert(NOTAG),
                ..old(self)@
            }),
    {
        let mut w = W::new();
        w.u32(msize).str("9P2000.L");
        proof {
            lemma_from_empty(calls::le32(msize));
        }
        let frame: Vec<u8> = self.transact(ninep::TVERSION, NOTAG, w.buf.as_slice());
        Request { tag: NOTAG, expect: ninep::RVERSION, frame }
    }

    /// The request that makes `fid` the root of the export `aname`, for the user `n_uname`.
    fn attach(&mut self, fid: u32, uname: &str, aname: &str, n_uname: u32) -> (r: Request)
        ensures
            issued(
                old(self)@,
                final(self)@,
                r,
                ninep::TATTACH,
                ninep::RATTACH,
                attach_body(fid, uname@, aname@, n_uname),
            ),
    {
        let mut w = W::new();
        w.u32(fid).u32(ninep::NOFID).str(uname).str(aname).u32(n_uname);
        proof {
            lemma_from_empty(calls::le32(fid));
        }
        self.req(ninep::TATTACH, ninep::RATTACH, w.buf.as_slice())
    }

    /// Starts a connection: a fresh client, and the version request to send first.
    pub fn connect(msize: u32) -> (r: (NineClient, Request))
        ensures
            r.1.tag == NOTAG,
            r.1.expect == ninep::RVERSION,
            r.1.frame@ == frame::frame_bytes(ninep::TVERSION, NOTAG, version_body(msize)),
            r.0@ == (ClientView {
                waiting: fresh_client(msize).waiting.insert(NOTAG),
                ..fresh_client(msize)
            }),
    {
        let mut client = NineClient::new(msize);
        let request: Request = client.version(msize);
        (client, request)
    }

    /// Goes on with a connection when the version request has been answered: the attach request to
    /// send next, or why the server will not do. From now on no message is larger than the server
    /// agreed to.
    pub fn connect_attach(
        &mut self,
        arrived: Option<Frame>,
        n_uname: u32,
        aname: &str,
    ) -> (r: Result<Request, ConnectError>)
        ensures
            match r {
                Ok(request) => {
                    &&& accepted(arrived_view(arrived)) matches Ok(n) && attaching(
                        ClientView { msize: agreed(old(self)@.msize, n), ..old(self)@ },
                        final(self)@,
                        request,
                        aname@,
                        n_uname,
                    )
                },
                Err(e) => {
                    &&& final(self)@ == old(self)@
                    &&& accepted(arrived_view(arrived)) == Err::<u32, ConnectErrorView>(e@)
                },
            },
    {
        let neg: u32 = match version_reply(arrived) {
            Ok(n) => n,
            Err(e) => {
                return Err(e);
            },
        };
        if neg < MIN_MSIZE {
            return Err(ConnectErrorOf::TinyMsize(neg));
        }
        if neg < self.msize {
            self.msize = neg;
        }
        Ok(self.attach(ROOT_FID, "user", aname, n_uname))
    }
}

/// How requests and responses meet does not depend on how the stream is cut into chunks: two chunks
/// received in turn deliver what the joined chunk delivers, and leave the same behind.
pub proof fn delivery_is_chunking_independent(
    acc: Seq<u8>,
    waiting: Set<u16>,
    a: Seq<u8>,
    b: Seq<u8>,
)
    ensures
        ({
            let first = frame::frames_in(acc + a);
            let mid = still_waiting(first, waiting);
            let second = frame::frames_in(frame::left_in(acc + a) + b);
            let whole = frame::frames_in(acc + (a + b));
            &&& routed(whole, waiting) == routed(first, waiting) + routed(second, mid)
            &&& still_waiting(whole, waiting) == still_waiting(second, mid)
            &&& frame::left_in(acc + (a + b)) == frame::left_in(frame::left_in(acc + a) + b)
        }),
{
    assert(acc + (a + b) =~= (acc + a) + b);
    frame::reassembly_is_chunking_independent(acc + a, b);
    let second = frame::frames_in(frame::left_in(acc + a) + b);
    routing_is_batching_independent(frame::frames_in(acc + a), second, waiting);
}

/// A response that the server sends under the tag of a waiting request reaches that request, as it
/// was sent, and no other.
pub proof fn response_reaches_its_request(
    typ: u8,
    tag: u16,
    body: Seq<u8>,
    rest: Seq<u8>,
    waiting: Set<u16>,
)
    requires
        waiting.contains(tag),
        7 + body.len() < 0x1_0000_0000,
    ensures
        routed(frame::frames_in(frame::frame_bytes(typ, tag, body) + rest), waiting) == seq![
            DeliveryView { tag, frame: FrameView { typ, body } },
        ] + routed(frame::frames_in(rest), waiting.remove(tag)),
{
    frame::framing_round_trip(typ, tag, body, rest);
    let f = FrameView { typ, body: ninep::le_bytes(tag as nat, 2) + body };
    let frames = seq![f] + frame::frames_in(rest);
    ninep::lemma_le_bytes_len(tag as nat, 2);
    ninep::lemma_byte_ranges();
    ninep::le_round_trip(tag as nat, 2);
    assert(f.body.subrange(0, 2) =~= ninep::le_bytes(tag as nat, 2));
    assert(f.body.skip(2) =~= body);
    assert(frames.drop_first() =~= frame::frames_in(rest));
}

/// The tag of the `k`-th request from now on, if `next` is the next tag.
pub open spec fn nth_tag(next: u16, k: nat) -> u16
    decreases k,
{
    if k == 0 {
        free_tag(next)
    } else {
        free_tag((nth_tag(next, (k - 1) as nat) + 1) as u16)
    }
}

/// That a request took `tag`, which brought the client from `before` to `after`.
pub open spec fn takes_tag(before: ClientView, after: ClientView, tag: u16) -> bool {
    &&& tag == free_tag(before.next_tag)
    &&& after.next_tag == tag + 1
}

/// A request takes the next tag, and the tags after it are those that were to follow.
pub proof fn requests_take_tags_in_turn(
    before: ClientView,
    after: ClientView,
    r: Request,
    mtype: u8,
    expect: u8,
    body: Seq<u8>,
    k: nat,
)
    requires
        issued(before, after, r, mtype, expect, body),
    ensures
        takes_tag(before, after, r.tag),
        r.tag == nth_tag(before.next_tag, 0),
        nth_tag(after.next_tag, k) == nth_tag(before.next_tag, k + 1),
{
    lemma_next_tag(before, after, r.tag, k);
}

proof fn lemma_next_tag(before: ClientView, after: ClientView, tag: u16, k: nat)
    requires
        takes_tag(before, after, tag),
    ensures
        nth_tag(after.next_tag, k) == nth_tag(before.next_tag, k + 1),
    decreases k,
{
    if k > 0 {
        lemma_next_tag(before, after, tag, (k - 1) as nat);
    } else {
        assert(nth_tag(before.next_tag, 1) == free_tag((nth_tag(before.next_tag, 0) + 1) as u16));
    }
}

/// That `tags` are the tags of requests made in a row: the `i`-th brought the client from
/// `clients[i]` to a state whose next tag is that of `clients[i + 1]`.
pub open spec fn tags_in_a_row(clients: Seq<ClientView>, tags: Seq<u16>) -> bool {
    &&& clients.len() == tags.len() + 1
    &&& forall|i: int|
        0 <= i < tags.len() ==> takes_tag(
            #[trigger] clients[i],
            clients[i + 1],
            tags[i],
        )
}

proof fn lemma_tags_in_a_row(clients: Seq<ClientView>, tags: Seq<u16>, i: int)
    requires
        tags_in_a_row(clients, tags),
        0 <= i < tags.len(),
    ensures
        tags[i] == nth_tag(clients[0].next_tag, i as nat),
    decreases i,
{
    assert(takes_tag(clients[i], clients[i + 1], tags[i]));
    if i > 0 {
        lemma_tags_in_a_row(clients, tags, i - 1);
        assert(takes_tag(clients[i - 1], clients[i], tags[i - 1]));
    }
}

/// Of 65535 tags taken in a row, from whatever state of the client, no two are the same and none is
/// the version request's; every other tag is taken once.
#[verifier::spinoff_prover]
pub proof fn tags_in_flight_differ(clients: Seq<ClientView>, tags: Seq<u16>)
    requires
        tags_in_a_row(clients, tags),
        tags.len() <= 65535,
    ensures
        forall|i: int| 0 <= i < tags.len() ==> #[trigger] tags[i] != NOTAG,
        forall|i: int, j: int| 0 <= i < j < tags.len() ==> #[trigger] tags[i] != #[trigger] tags[j],
        tags.len() == 65535 ==> forall|t: u16| t != NOTAG ==> #[trigger] tags.contains(t),
{
    let first = free_tag(clients[0].next_tag);
    assert forall|i: int| 0 <= i < tags.len() implies #[trigger] tags[i] == tag_from(first, i) by {
        lemma_tags_in_a_row(clients, tags, i);
        lemma_nth_tag(clients[0].next_tag, i as nat);
    }
    if tags.len() == 65535 {
        assert forall|t: u16| t != NOTAG implies #[trigger] tags.contains(t) by {
            let i: int = if t >= first {
                t - first
            } else {
                t - first + 65535
            };
            assert(tags[i] == tag_from(first, i));
        }
    }
}

/// The tag that is `k` tags behind `first`, passing over the version request's.
spec fn tag_from(first: u16, k: int) -> int {
    if first + k < 65535 {
        first + k
    } else {
        first + k - 65535
    }
}

proof fn lemma_nth_tag(next: u16, k: nat)
    requires
        k < 65535,
    ensures
        nth_tag(next, k) == tag_from(free_tag(next), k as int),
    decreases k,
{
    if k > 0 {
        lemma_nth_tag(next, (k - 1) as nat);
    }
}

/// The fid after `fid`; the numbers start over when they run out.
pub open spec fn next_fid(fid: u32) -> u32 {
    if fid == u32::MAX {
        0
    } else {
        (fid + 1) as u32
    }
}

/// A refused request is answered with the server's error number, whatever was asked.
pub proof fn refusals_give_the_error_number(call: calls::CallView, e: u32, rest: Seq<u8>)
    ensures
        concluded(
            call,
            Some(FrameView { typ: ninep::RLERROR, body: calls::le32(e) + rest }),
        ) == Err::<calls::AnswerView, i32>(e as i32),
{
    ninep::lemma_byte_ranges();
    ninep::lemma_le_bytes_len(e as nat, 4);
    ninep::field_round_trip(e as nat, 4, rest);
}

/// A server that speaks the protocol is attached to if it takes messages of a useful size, and told
/// off if it does not.
pub proof fn fit_servers_are_accepted(msize: u32, rest: Seq<u8>)
    ensures
        accepted(
            Some(FrameView { typ: ninep::RVERSION, body: version_body(msize) + rest }),
        ) == if msize >= MIN_MSIZE {
            Ok::<u32, ConnectErrorView>(msize)
        } else {
            Err(ConnectErrorView::TinyMsize(msize))
        },
{
    let body = version_body(msize) + rest;
    let version = ninep::str_bytes("9P2000.L"@);
    reveal_strlit("9P2000.L");
    lemma_utf8_len("9P2000.L"@);
    ninep::lemma_byte_ranges();
    ninep::lemma_le_bytes_len(msize as nat, 4);
    ninep::field_round_trip(msize as nat, 4, version + rest);
    ninep::str_round_trip("9P2000.L"@, rest);
    assert(body =~= calls::le32(msize) + (version + rest));
    assert(body.skip(4) =~= version + rest);
}

/// A character takes at most four bytes.
pub proof fn lemma_utf8_len(s: Seq<char>)
    ensures
        vstd::utf8::encode_utf8(s).len() <= 4 * s.len(),
    decreases s.len(),
{
    if s.len() > 0 {
        lemma_utf8_len(s.drop_first());
        vstd::utf8::encode_utf8_first_scalar(s);
    }
}

/// Why a connection failed is told with the number that the server gave.
pub proof fn failures_tell_their_number(e: i32, n: u32)
    requires
        e >= 0,
    ensures
        text::number_said(
            connect_message(ConnectErrorOf::VersionFailed(e)).skip(
                "Tversion failed: errno "@.len() as int,
            ),
        ) == e,
        text::number_said(
            connect_message(ConnectErrorOf::AttachFailed(e)).skip(
                "Tattach failed: errno "@.len() as int,
            ),
        ) == e,
        text::number_said(
            connect_message(ConnectErrorOf::TinyMsize(n)).skip(
                "server negotiated tiny msize "@.len() as int,
            ),
        ) == n,
{
    text::decimals_say_the_number(e as int);
    text::decimals_say_the_number(n as int);
    let d = text::decimal(e as int);
    assert(("Tversion failed: errno "@ + d).skip("Tversion failed: errno "@.len() as int) =~= d);
    assert(("Tattach failed: errno "@ + d).skip("Tattach failed: errno "@.len() as int) =~= d);
    let m = text::decimal(n as int);
    assert(("server negotiated tiny msize "@ + m).skip(
        "server negotiated tiny msize "@.len() as int,
    ) =~= m);
}

} // verus!
