//! Big-endian byte-order helpers for the wire format.
//!
//! Every multi-byte field of the framing protocol is a 32-bit quantity in
//! network byte order.  Signed fields travel as the two's-complement image
//! of the value in an unsigned 32-bit field.

use vstd::prelude::*;

verus! {

/// The integer value of a four-byte big-endian sequence.
pub open spec fn be_u32_val(b: Seq<u8>) -> int
    recommends
        b.len() == 4,
{
    b[0] * 0x1000000 + b[1] * 0x10000 + b[2] * 0x100 + b[3]
}

/// The four big-endian bytes of an unsigned 32-bit integer.
pub open spec fn u32_be_bytes(x: u32) -> Seq<u8> {
    seq![
        ((x >> 24) & 0xff) as u8,
        ((x >> 16) & 0xff) as u8,
        ((x >> 8) & 0xff) as u8,
        (x & 0xff) as u8,
    ]
}

/// The unsigned 32-bit image of a signed 32-bit value (two's complement).
pub open spec fn i32_to_u32(x: i32) -> u32 {
    if x >= 0 {
        x as u32
    } else {
        (x + 0x100000000) as u32
    }
}

/// The signed 32-bit value whose two's-complement image is the given
/// unsigned 32-bit integer.
pub open spec fn u32_to_i32(x: u32) -> i32 {
    if x < 0x80000000 {
        x as i32
    } else {
        (x - 0x100000000) as i32
    }
}

/// The four big-endian bytes of a signed 32-bit integer.
pub open spec fn i32_be_bytes(x: i32) -> Seq<u8> {
    u32_be_bytes(i32_to_u32(x))
}

/// Reading back the four bytes of `x` yields `x`.
pub proof fn lemma_u32_be_round_trip(x: u32)
    ensures
        be_u32_val(u32_be_bytes(x)) == x,
{
    let b = u32_be_bytes(x);
    assert((x >> 24) & 0xff < 256 && (x >> 16) & 0xff < 256 && (x >> 8) & 0xff < 256 && x & 0xff
        < 256) by (bit_vector);
    assert(b[0] == ((x >> 24) & 0xff) as u8);
    assert(b[1] == ((x >> 16) & 0xff) as u8);
    assert(b[2] == ((x >> 8) & 0xff) as u8);
    assert(b[3] == (x & 0xff) as u8);
    assert(((x >> 24) & 0xff) * 0x1000000 + ((x >> 16) & 0xff) * 0x10000 + ((x >> 8) & 0xff) * 0x100
        + (x & 0xff) == x) by (bit_vector);
}

/// Signed round trip: recovering a signed value from its unsigned image.
pub proof fn lemma_i32_u32_round_trip(x: i32)
    ensures
        u32_to_i32(i32_to_u32(x)) == x,
{
}

/// Read a big-endian unsigned 32-bit integer at `offset`.
pub fn read_u32_be(bytes: &[u8], offset: usize) -> (x: u32)
    requires
        offset + 4 <= bytes@.len(),
    ensures
        x == be_u32_val(bytes@.subrange(offset as int, offset as int + 4)),
{
    let b0 = bytes[offset] as u32;
    let b1 = bytes[offset + 1] as u32;
    let b2 = bytes[offset + 2] as u32;
    let b3 = bytes[offset + 3] as u32;
    b0 * 0x1000000 + b1 * 0x10000 + b2 * 0x100 + b3
}

/// Read a big-endian signed 32-bit integer at `offset`.
pub fn read_i32_be(bytes: &[u8], offset: usize) -> (x: i32)
    requires
        offset + 4 <= bytes@.len(),
    ensures
        x == u32_to_i32(be_u32_val(bytes@.subrange(offset as int, offset as int + 4)) as u32),
{
    let u = read_u32_be(bytes, offset);
    if u < 0x80000000 {
        u as i32
    } else {
        ((u as i64) - 0x100000000i64) as i32
    }
}

/// Append the four big-endian bytes of `x` to `out`.
pub fn push_u32_be(out: &mut Vec<u8>, x: u32)
    ensures
        final(out)@ == old(out)@ + u32_be_bytes(x),
{
    let ghost pre = out@;
    proof {
        assert((x >> 24) & 0xff < 256 && (x >> 16) & 0xff < 256 && (x >> 8) & 0xff < 256 && x & 0xff
            < 256) by (bit_vector);
    }
    out.push(((x >> 24) & 0xff) as u8);
    out.push(((x >> 16) & 0xff) as u8);
    out.push(((x >> 8) & 0xff) as u8);
    out.push((x & 0xff) as u8);
    assert(out@ =~= pre + u32_be_bytes(x));
}

/// Append the four big-endian bytes of a signed value's unsigned image.
pub fn push_i32_be(out: &mut Vec<u8>, x: i32)
    ensures
        final(out)@ == old(out)@ + i32_be_bytes(x),
{
    let u: u32 = if x >= 0 {
        x as u32
    } else {
        ((x as i64) + 0x100000000i64) as u32
    };
    assert(u == i32_to_u32(x));
    push_u32_be(out, u);
}

} // verus!
