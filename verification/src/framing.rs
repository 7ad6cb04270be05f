//! Cutting a byte stream into frames.
//!
//! A stream delivers bytes in chunks that need not line up with frames: a
//! chunk may end in the middle of a frame or hold several. The buffer here
//! collects what has arrived and hands out one whole frame at a time, as the
//! size fields say.

use vstd::prelude::*;

use crate::packet::{
    encode, size_field, well_framed, DecodeError, PacketView, MIN_DECLARED_SIZE, MIN_FRAME_LEN,
};
use crate::packet::lemma_frame_size;
use crate::wire::read_i32_le;

verus! {

/// What stands at the front of the bytes received so far.
pub enum FrameStatus {
    /// Not yet a whole frame: more bytes have to arrive.
    Incomplete,
    /// A size field too small for any frame.
    Malformed,
    /// A whole frame of this many bytes.
    Complete(int),
}

/// The state of the front of `pending`.
pub open spec fn frame_status(pending: Seq<u8>) -> FrameStatus {
    if pending.len() < 4 {
        FrameStatus::Incomplete
    } else if size_field(pending) < MIN_DECLARED_SIZE {
        FrameStatus::Malformed
    } else if pending.len() < size_field(pending) + 4 {
        FrameStatus::Incomplete
    } else {
        FrameStatus::Complete(size_field(pending) + 4)
    }
}

/// The bytes of a stream that have arrived and are not yet consumed.
pub struct FrameBuffer {
    bytes: Vec<u8>,
}

impl View for FrameBuffer {
    type V = Seq<u8>;

    closed spec fn view(&self) -> Seq<u8> {
        self.bytes@
    }
}

impl FrameBuffer {
    /// A buffer with nothing in it.
    pub fn new() -> (buffer: FrameBuffer)
        ensures
            buffer@ == Seq::<u8>::empty(),
    {
        FrameBuffer { bytes: Vec::new() }
    }

    /// The number of bytes waiting.
    pub fn len(&self) -> (n: usize)
        ensures
            n == self@.len(),
    {
        self.bytes.len()
    }

    /// Appends a chunk that arrived.
    pub fn push(&mut self, chunk: &[u8])
        ensures
            final(self)@ == old(self)@ + chunk@,
    {
        self.bytes.extend_from_slice(chunk);
        assert(self.bytes@ =~= old(self).bytes@ + chunk@);
    }

    /// Takes the frame at the front, if a whole one is there. The bytes after
    /// it stay for the next call. Nothing is taken while the frame is
    /// incomplete or its size field is too small.
    pub fn next_frame(&mut self) -> (r: Result<Option<Vec<u8>>, DecodeError>)
        ensures
            match frame_status(old(self)@) {
                FrameStatus::Incomplete => r matches Ok(None) && final(self)@ == old(self)@,
                FrameStatus::Malformed => {
                    &&& r matches Err(DecodeError::MalformedPacket)
                    &&& final(self)@ == old(self)@
                },
                FrameStatus::Complete(n) => {
                    &&& r matches Ok(Some(frame)) && frame@ == old(self)@.subrange(0, n)
                    &&& final(self)@ == old(self)@.subrange(n, old(self)@.len() as int)
                },
            },
    {
        if self.bytes.len() < 4 {
            return Ok(None);
        }
        let size = read_i32_le(self.bytes.as_slice(), 0);
        if size < MIN_DECLARED_SIZE {
            return Err(DecodeError::MalformedPacket);
        }
        let total = size as usize + 4;
        if self.bytes.len() < total {
            return Ok(None);
        }
        let mut frame = self.bytes.split_off(total);
        std::mem::swap(&mut self.bytes, &mut frame);
        Ok(Some(frame))
    }
}

/// A frame cut from a stream has a sound outline.
pub proof fn lemma_complete_frame_is_well_framed(pending: Seq<u8>)
    requires
        frame_status(pending) is Complete,
    ensures
        ({
            let n = frame_status(pending)->Complete_0;
            &&& MIN_FRAME_LEN <= n <= pending.len()
            &&& well_framed(pending.subrange(0, n))
        }),
{
    let n = frame_status(pending)->Complete_0;
    assert(pending.subrange(0, n).subrange(0, 4) =~= pending.subrange(0, 4));
}

/// A frame that was written is cut off whole, whatever follows it in the
/// stream.
pub proof fn lemma_written_frame_is_cut(p: PacketView, rest: Seq<u8>)
    requires
        p.declared_size() <= i32::MAX,
    ensures
        frame_status(encode(p) + rest) == FrameStatus::Complete(encode(p).len() as int),
        (encode(p) + rest).subrange(0, encode(p).len() as int) == encode(p),
        (encode(p) + rest).subrange(encode(p).len() as int, (encode(p) + rest).len() as int)
            == rest,
{
    let frame = encode(p);
    let stream = frame + rest;
    lemma_frame_size(p);
    assert(stream.subrange(0, 4) =~= frame.subrange(0, 4));
    assert(stream.subrange(0, frame.len() as int) =~= frame);
    assert(stream.subrange(frame.len() as int, stream.len() as int) =~= rest);
}

/// While only a part of a frame has arrived, nothing is cut.
pub proof fn lemma_partial_frame_waits(p: PacketView, n: int)
    requires
        p.declared_size() <= i32::MAX,
        0 <= n < encode(p).len(),
    ensures
        frame_status(encode(p).subrange(0, n)) == FrameStatus::Incomplete,
{
    let frame = encode(p);
    lemma_frame_size(p);
    if n >= 4 {
        assert(frame.subrange(0, n).subrange(0, 4) =~= frame.subrange(0, 4));
    }
}

} // verus!
