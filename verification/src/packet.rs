//! The packet codec: a packet and its length-prefixed form on the wire.

use vstd::prelude::*;
use vstd::slice::slice_to_vec;
use vstd::utf8::*;

use crate::buffer::{
    buf_as_slice, buf_extend_from_slice, buf_len, buf_new, buf_put_i32_le,
    buf_put_slice, buf_put_u8,
};
use crate::text::string_from_utf8;
use crate::wire::{
    i32_from_le, i32_to_le, lemma_i32_le_bytes_round_trip, lemma_i32_le_round_trip, read_i32_le,
};

verus! {

/// Bytes that a size field counts besides the body: the id, the type and the
/// two terminators.
pub const MIN_DECLARED_SIZE: i32 = 10;

/// Bytes of a frame before the body: the size field, the id and the type.
pub const HEADER_LEN: usize = 12;

/// Bytes of a frame after the body: the body terminator and the packet
/// terminator.
pub const TRAILER_LEN: usize = 2;

/// Length of the shortest frame, the one with an empty body.
pub const MIN_FRAME_LEN: usize = 14;

/// The unit of exchange: a correlation id chosen by the client, a type code
/// and a text body.
#[derive(Debug, PartialEq, Eq)]
pub struct RconPacket {
    /// Correlation id: the server echoes it in its response.
    pub id: i32,
    /// Type code; the session decides which values it accepts.
    pub packet_type: i32,
    /// Text payload.
    pub body: String,
}

/// A packet as a mathematical value.
pub struct PacketView {
    pub id: i32,
    pub packet_type: i32,
    pub body: Seq<char>,
}

/// Why a byte sequence is not a frame.
#[derive(Debug, Clone, Copy, PartialEq, Eq, Structural)]
pub enum DecodeError {
    /// Too short to hold the header and the two terminators.
    MalformedPacket,
    /// The size field does not count the bytes that follow it.
    SizeMismatch,
    /// The body is not UTF-8.
    InvalidEncoding,
}

impl PacketView {
    /// The body as it travels: its UTF-8 bytes.
    pub open spec fn body_bytes(self) -> Seq<u8> {
        encode_utf8(self.body)
    }

    /// What the size field of the frame says: the number of bytes after it.
    pub open spec fn declared_size(self) -> nat {
        self.body_bytes().len() + MIN_DECLARED_SIZE as nat
    }

    /// The length of the whole frame, size field included.
    pub open spec fn frame_len(self) -> nat {
        4 + self.declared_size()
    }

    /// Whether the packet has a frame: the size field can hold its value, and
    /// the frame is no longer than an allocation can be.
    pub open spec fn encodable(self) -> bool {
        &&& self.declared_size() <= i32::MAX
        &&& self.frame_len() <= isize::MAX
    }
}

impl Clone for RconPacket {
    fn clone(&self) -> (copy: RconPacket)
        ensures
            copy@ == self@,
    {
        RconPacket { id: self.id, packet_type: self.packet_type, body: self.body.clone() }
    }
}

impl View for RconPacket {
    type V = PacketView;

    open spec fn view(&self) -> PacketView {
        PacketView { id: self.id, packet_type: self.packet_type, body: self.body@ }
    }
}

/// The frame of a packet: size field, id, type, body and the two zero bytes
/// that end the body and the packet.
pub open spec fn encode(p: PacketView) -> Seq<u8> {
    i32_to_le(p.declared_size() as i32) + i32_to_le(p.id) + i32_to_le(p.packet_type)
        + p.body_bytes() + seq![0u8, 0u8]
}

/// The value of the size field of `data`: the integer in its first four
/// bytes.
pub open spec fn size_field(data: Seq<u8>) -> int
    recommends
        data.len() >= 4,
{
    i32_from_le(data.subrange(0, 4)) as int
}

/// The body bytes of a frame: what lies between the header and the two
/// terminators.
pub open spec fn frame_body(data: Seq<u8>) -> Seq<u8>
    recommends
        data.len() >= MIN_FRAME_LEN,
{
    data.subrange(HEADER_LEN as int, data.len() - TRAILER_LEN)
}

/// Whether `data` has the outline of one frame: long enough for header and
/// terminators, with a size field that counts exactly the bytes after it.
pub open spec fn well_framed(data: Seq<u8>) -> bool {
    &&& data.len() >= MIN_FRAME_LEN
    &&& size_field(data) + 4 == data.len()
}

/// The packet that `data` carries, or the reason why it carries none.
pub open spec fn decode(data: Seq<u8>) -> Result<PacketView, DecodeError> {
    if data.len() < MIN_FRAME_LEN {
        Err(DecodeError::MalformedPacket)
    } else if size_field(data) + 4 != data.len() {
        Err(DecodeError::SizeMismatch)
    } else if !valid_utf8(frame_body(data)) {
        Err(DecodeError::InvalidEncoding)
    } else {
        Ok(
            PacketView {
                id: i32_from_le(data.subrange(4, 8)),
                packet_type: i32_from_le(data.subrange(8, 12)),
                body: decode_utf8(frame_body(data)),
            },
        )
    }
}

impl RconPacket {
    /// A packet of the given id, type and body.
    pub fn new(id: i32, packet_type: i32, body: String) -> (p: RconPacket)
        ensures
            p.id == id,
            p.packet_type == packet_type,
            p.body == body,
    {
        RconPacket { id, packet_type, body }
    }

    /// Whether [`RconPacket::serialize`] accepts this packet.
    pub fn is_encodable(&self) -> (ok: bool)
        ensures
            ok == self@.encodable(),
    {
        let n = self.body.as_str().as_bytes().len();
        n <= (i32::MAX - MIN_DECLARED_SIZE) as usize && n <= isize::MAX as usize - MIN_FRAME_LEN
    }

    /// The frame of this packet. Its size field counts the bytes that follow
    /// it, and decoding the frame gives the packet back.
    pub fn serialize(&self) -> (out: Vec<u8>)
        requires
            self@.encodable(),
        ensures
            out@ == encode(self@),
            out@.len() == self@.frame_len(),
            size_field(out@) == out@.len() - 4,
            decode(out@) == Ok::<PacketView, DecodeError>(self@),
    {
        let mut buffer = buf_new();
        buf_put_i32_le(&mut buffer, self.id);
        buf_put_i32_le(&mut buffer, self.packet_type);
        buf_put_slice(&mut buffer, self.body.as_str().as_bytes());
        buf_put_u8(&mut buffer, 0);
        buf_put_u8(&mut buffer, 0);

        let size = buf_len(&buffer) as i32;
        let mut packet = buf_new();
        buf_put_i32_le(&mut packet, size);
        buf_extend_from_slice(&mut packet, buf_as_slice(&buffer));

        let out = slice_to_vec(buf_as_slice(&packet));
        proof {
            assert(out@ =~= encode(self@));
            lemma_frame_size(self@);
            lemma_decode_encode(self@);
        }
        out
    }

    /// Reads the packet that `data` carries. The input has to be one frame,
    /// no less and no more: it is malformed if it is shorter than the shortest
    /// frame, mismatched if its size field does not count the bytes after it,
    /// and wrongly encoded if its body is not UTF-8, in this order.
    pub fn deserialize(data: &[u8]) -> (r: Result<RconPacket, DecodeError>)
        ensures
            match r {
                Ok(p) => decode(data@) == Ok::<PacketView, DecodeError>(p@),
                Err(e) => decode(data@) == Err::<PacketView, DecodeError>(e),
            },
            data@.len() < MIN_FRAME_LEN ==> r == Err::<RconPacket, DecodeError>(
                DecodeError::MalformedPacket,
            ),
            well_framed(data@) && !valid_utf8(frame_body(data@)) ==> r == Err::<
                RconPacket,
                DecodeError,
            >(DecodeError::InvalidEncoding),
            r is Ok <==> well_framed(data@) && valid_utf8(frame_body(data@)),
    {
        let n = data.len();
        if n < MIN_FRAME_LEN {
            return Err(DecodeError::MalformedPacket);
        }
        let size = read_i32_le(data, 0);
        if size < 0 || size as usize != n - 4 {
            return Err(DecodeError::SizeMismatch);
        }
        let id = read_i32_le(data, 4);
        let packet_type = read_i32_le(data, 8);
        let body_bytes = slice_to_vec(&data[HEADER_LEN..n - TRAILER_LEN]);
        match string_from_utf8(body_bytes) {
            Ok(body) => {
                proof {
                    encode_utf8_decode_utf8(body@);
                }
                Ok(RconPacket::new(id, packet_type, body))
            },
            Err(_) => Err(DecodeError::InvalidEncoding),
        }
    }
}

/// The size field of a frame counts every byte that follows it.
pub proof fn lemma_frame_size(p: PacketView)
    requires
        p.declared_size() <= i32::MAX,
    ensures
        encode(p).len() == p.frame_len(),
        size_field(encode(p)) == p.declared_size(),
        size_field(encode(p)) == encode(p).len() - 4,
{
    let size = p.declared_size() as i32;
    lemma_i32_le_round_trip(size);
    lemma_i32_le_round_trip(p.id);
    lemma_i32_le_round_trip(p.packet_type);
    assert(encode(p).subrange(0, 4) =~= i32_to_le(size));
}

/// Decoding the frame of a packet gives the packet back.
pub proof fn lemma_decode_encode(p: PacketView)
    requires
        p.declared_size() <= i32::MAX,
    ensures
        decode(encode(p)) == Ok::<PacketView, DecodeError>(p),
{
    let data = encode(p);
    lemma_frame_size(p);
    lemma_i32_le_round_trip(p.declared_size() as i32);
    lemma_i32_le_round_trip(p.id);
    lemma_i32_le_round_trip(p.packet_type);
    assert(data.subrange(4, 8) =~= i32_to_le(p.id));
    assert(data.subrange(8, 12) =~= i32_to_le(p.packet_type));
    assert(frame_body(data) =~= p.body_bytes());
    encode_utf8_valid_utf8(p.body);
    encode_utf8_decode_utf8(p.body);
}

/// Anything shorter than the shortest frame is malformed.
pub proof fn lemma_short_input_is_malformed(data: Seq<u8>)
    requires
        data.len() < MIN_FRAME_LEN,
    ensures
        decode(data) == Err::<PacketView, DecodeError>(DecodeError::MalformedPacket),
{
}

/// A frame with a sound outline whose body is not UTF-8 is rejected for its
/// encoding.
pub proof fn lemma_invalid_utf8_is_rejected(data: Seq<u8>)
    requires
        well_framed(data),
        !valid_utf8(frame_body(data)),
    ensures
        decode(data) == Err::<PacketView, DecodeError>(DecodeError::InvalidEncoding),
{
}

/// Where the fields lie in a frame: the size field at offset 0, the id at 4,
/// the type at 8, the body from 12 on, and a zero byte in each of the last
/// two places.
pub proof fn lemma_frame_layout(p: PacketView)
    ensures
        encode(p).len() == MIN_FRAME_LEN + p.body_bytes().len(),
        encode(p).subrange(0, 4) == i32_to_le(p.declared_size() as i32),
        encode(p).subrange(4, 8) == i32_to_le(p.id),
        encode(p).subrange(8, 12) == i32_to_le(p.packet_type),
        frame_body(encode(p)) == p.body_bytes(),
        encode(p)[encode(p).len() - 2] == 0,
        encode(p)[encode(p).len() - 1] == 0,
{
    let data = encode(p);
    assert(data.subrange(0, 4) =~= i32_to_le(p.declared_size() as i32));
    assert(data.subrange(4, 8) =~= i32_to_le(p.id));
    assert(data.subrange(8, 12) =~= i32_to_le(p.packet_type));
    assert(frame_body(data) =~= p.body_bytes());
}

/// A packet has one frame only: bytes that carry a packet and end in the two
/// zero bytes are the frame of that packet.
pub proof fn lemma_encode_decode(data: Seq<u8>, p: PacketView)
    requires
        decode(data) == Ok::<PacketView, DecodeError>(p),
        data[data.len() - 2] == 0,
        data[data.len() - 1] == 0,
    ensures
        p.declared_size() <= i32::MAX,
        encode(p) == data,
{
    decode_utf8_encode_utf8(frame_body(data));
    lemma_i32_le_bytes_round_trip(data.subrange(0, 4));
    lemma_i32_le_bytes_round_trip(data.subrange(4, 8));
    lemma_i32_le_bytes_round_trip(data.subrange(8, 12));
    assert(p.declared_size() == size_field(data));
    assert(encode(p) =~= data);
}

} // verus!
