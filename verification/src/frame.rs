//! Framing: whole messages `size[4] type[1] tag[2] body`, where `size` counts the whole message, cut
//! out of a byte stream that arrives in arbitrary chunks.

use crate::ninep;
use vstd::prelude::*;
use vstd::slice::slice_subrange;

verus! {

/// A message without its size field: the message type, and `body`, which is what follows the type.
/// Right after `take_frame` that is the tag and the payload; after dispatch, the payload alone.
#[derive(Clone, Debug, PartialEq, Eq)]
pub struct Frame {
    pub typ: u8,
    pub body: Vec<u8>,
}

/// What a `Frame` stands for.
pub struct FrameView {
    pub typ: u8,
    pub body: Seq<u8>,
}

impl View for Frame {
    type V = FrameView;

    open spec fn view(&self) -> FrameView {
        FrameView { typ: self.typ, body: self.body@ }
    }
}

/// A whole message on the wire. Only the low 32 bits of its size fit in the size field.
pub open spec fn frame_bytes(typ: u8, tag: u16, body: Seq<u8>) -> Seq<u8> {
    ninep::le_bytes((7 + body.len()) % 0x1_0000_0000, 4) + seq![typ] + ninep::le_bytes(
        tag as nat,
        2,
    ) + body
}

/// The size that the message at the front of `acc` announces.
pub open spec fn frame_size(acc: Seq<u8>) -> int {
    ninep::field(acc, 0, 4) as int
}

/// Whether `acc` begins with a whole message of legal size.
pub open spec fn has_frame(acc: Seq<u8>) -> bool {
    acc.len() >= 7 && 7 <= frame_size(acc) <= acc.len()
}

/// The message at the front of `acc`.
pub open spec fn first_frame(acc: Seq<u8>) -> FrameView {
    FrameView { typ: acc[4], body: acc.subrange(5, frame_size(acc)) }
}

/// The whole messages at the front of `acc`, one after the other.
pub open spec fn frames_in(acc: Seq<u8>) -> Seq<FrameView>
    decreases acc.len(),
{
    if has_frame(acc) {
        seq![first_frame(acc)] + frames_in(acc.skip(frame_size(acc)))
    } else {
        Seq::empty()
    }
}

/// What is left of `acc` behind its whole messages.
pub open spec fn left_in(acc: Seq<u8>) -> Seq<u8>
    decreases acc.len(),
{
    if has_frame(acc) {
        left_in(acc.skip(frame_size(acc)))
    } else {
        acc
    }
}

/// Frames are reassembled across arbitrary chunk boundaries: cutting the messages out of `a`, and
/// then out of what is left with `b` behind it, gives the messages of `a + b` and leaves the same.
pub proof fn reassembly_is_chunking_independent(a: Seq<u8>, b: Seq<u8>)
    ensures
        frames_in(a + b) == frames_in(a) + frames_in(left_in(a) + b),
        left_in(a + b) == left_in(left_in(a) + b),
    decreases a.len(),
{
    if has_frame(a) {
        let size = frame_size(a);
        assert((a + b).subrange(0, 4) =~= a.subrange(0, 4));
        assert(first_frame(a + b).body =~= first_frame(a).body);
        assert((a + b).skip(size) =~= a.skip(size) + b);
        reassembly_is_chunking_independent(a.skip(size), b);
        let rest = frames_in(left_in(a) + b);
        assert(seq![first_frame(a)] + (frames_in(a.skip(size)) + rest) =~= frames_in(a) + rest);
    } else {
        assert(frames_in(a) + frames_in(a + b) =~= frames_in(a + b));
    }
}

/// A message that was put on the wire is cut out of the stream again as it was, whatever follows it.
pub proof fn framing_round_trip(typ: u8, tag: u16, body: Seq<u8>, rest: Seq<u8>)
    requires
        7 + body.len() < 0x1_0000_0000,
    ensures
        has_frame(frame_bytes(typ, tag, body) + rest),
        first_frame(frame_bytes(typ, tag, body) + rest) == (FrameView {
            typ,
            body: ninep::le_bytes(tag as nat, 2) + body,
        }),
        frame_size(frame_bytes(typ, tag, body) + rest) == 7 + body.len(),
        frames_in(frame_bytes(typ, tag, body) + rest) == seq![
            FrameView { typ, body: ninep::le_bytes(tag as nat, 2) + body },
        ] + frames_in(rest),
        left_in(frame_bytes(typ, tag, body) + rest) == left_in(rest),
{
    let size = 7 + body.len();
    let acc = frame_bytes(typ, tag, body) + rest;
    ninep::lemma_le_bytes_len(size, 4);
    ninep::lemma_le_bytes_len(tag as nat, 2);
    ninep::lemma_byte_ranges();
    ninep::le_round_trip(size, 4);
    assert(acc.subrange(0, 4) =~= ninep::le_bytes(size, 4));
    assert(frame_size(acc) == size);
    assert(acc.subrange(5, size as int) =~= ninep::le_bytes(tag as nat, 2) + body);
    assert(acc.skip(size as int) =~= rest);
}

/// The whole message of type `typ` with `body`.
pub fn encode_frame(typ: u8, tag: u16, body: &[u8]) -> (frame: Vec<u8>)
    ensures
        frame@ == frame_bytes(typ, tag, body@),
{
    let size: u32 = ((body.len() as u64 % 0x1_0000_0000 + 7) % 0x1_0000_0000) as u32;
    let mut w = ninep::W::new();
    w.u32(size).u8(typ).u16(tag).bytes(body);
    proof {
        assert((body@.len() as nat % 0x1_0000_0000 + 7) % 0x1_0000_0000 == (7 + body@.len())
            % 0x1_0000_0000);
        assert(Seq::<u8>::empty() + ninep::le_bytes(size as nat, 4) =~= ninep::le_bytes(
            size as nat,
            4,
        ));
        let front = ninep::le_bytes(size as nat, 4);
        assert(front.push(typ) =~= front + seq![typ]);
    }
    w.buf
}

/// Cuts one whole message out of `acc`, if there is one. Its `body` is the tag and the payload; a
/// partial message stays in `acc`.
pub fn take_frame(acc: &mut Vec<u8>) -> (r: Option<Frame>)
    ensures
        match r {
            Some(f) => {
                &&& has_frame(old(acc)@)
                &&& f@ == first_frame(old(acc)@)
                &&& f.body@.len() >= 2
                &&& final(acc)@ == old(acc)@.skip(frame_size(old(acc)@))
            },
            None => !has_frame(old(acc)@) && final(acc)@ == old(acc)@,
        },
{
    if acc.len() < 7 {
        return None;
    }
    let ghost all = acc@;
    let size: usize = match ninep::R::new(acc.as_slice()).u32() {
        Some(v) => v as usize,
        None => 0,
    };
    if size < 7 || acc.len() < size {
        return None;
    }
    let mut rest: Vec<u8> = acc.split_off(size);
    let typ: u8 = acc[4];
    let body: Vec<u8> = vstd::slice::slice_to_vec(slice_subrange(acc.as_slice(), 5, size));
    assert(body@ =~= all.subrange(5, size as int));
    assert(rest@ =~= all.skip(size as int));
    core::mem::swap(acc, &mut rest);
    Some(Frame { typ, body })
}

} // verus!
