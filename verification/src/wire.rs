//! Little-endian signed 32-bit integers, the only integer format on the wire.

use vstd::prelude::*;

verus! {

/// The four bytes that carry `n` on the wire: its two's-complement
/// representation, least significant byte first.
pub open spec fn i32_to_le(n: i32) -> Seq<u8> {
    let u: int = if n < 0 { n + 0x1_0000_0000 } else { n as int };
    seq![
        (u % 256) as u8,
        ((u / 0x100) % 256) as u8,
        ((u / 0x1_0000) % 256) as u8,
        ((u / 0x100_0000) % 256) as u8,
    ]
}

/// The integer that the first four bytes of `b` carry.
pub open spec fn i32_from_le(b: Seq<u8>) -> i32
    recommends
        b.len() >= 4,
{
    let u: int = b[0] + 0x100 * b[1] + 0x1_0000 * b[2] + 0x100_0000 * b[3];
    if u < 0x8000_0000 {
        u as i32
    } else {
        (u - 0x1_0000_0000) as i32
    }
}

/// Reading back the bytes written for `n` gives `n`.
pub proof fn lemma_i32_le_round_trip(n: i32)
    ensures
        i32_to_le(n).len() == 4,
        i32_from_le(i32_to_le(n)) == n,
{
}

/// Four bytes are the representation of the integer they carry, and of no
/// other.
pub proof fn lemma_i32_le_bytes_round_trip(b: Seq<u8>)
    requires
        b.len() == 4,
    ensures
        i32_to_le(i32_from_le(b)) == b,
{
    let u: int = b[0] + 0x100 * b[1] + 0x1_0000 * b[2] + 0x100_0000 * b[3];
    let n = i32_from_le(b);
    assert(u == if n < 0 { n + 0x1_0000_0000 } else { n as int });
    assert(u % 256 == b[0]);
    assert((u / 0x100) % 256 == b[1]);
    assert((u / 0x1_0000) % 256 == b[2]);
    assert((u / 0x100_0000) % 256 == b[3]);
    assert(i32_to_le(n) =~= b);
}

/// Reads the little-endian integer that starts at offset `at` of `data`.
pub fn read_i32_le(data: &[u8], at: usize) -> (n: i32)
    requires
        at + 4 <= data@.len(),
    ensures
        n == i32_from_le(data@.subrange(at as int, at + 4)),
{
    let b0: u32 = data[at] as u32;
    let b1: u32 = data[at + 1] as u32;
    let b2: u32 = data[at + 2] as u32;
    let b3: u32 = data[at + 3] as u32;
    let u: u32 = b0 + 0x100 * b1 + 0x1_0000 * b2 + 0x100_0000 * b3;
    if u < 0x8000_0000 {
        u as i32
    } else {
        (u - 0x8000_0000) as i32 + i32::MIN
    }
}

} // verus!
