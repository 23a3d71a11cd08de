//! Little-endian scalars: the byte sequences of unsigned integers of two, four
//! and eight bytes, and the integers that such sequences stand for.

use vstd::prelude::*;

verus! {

/// The two bytes of `x`, least significant first.
pub open spec fn u16_le(x: u16) -> Seq<u8> {
    seq![(x % 256) as u8, (x / 256) as u8]
}

/// The four bytes of `x`, least significant first.
pub open spec fn u32_le(x: u32) -> Seq<u8> {
    seq![
        (x % 256) as u8,
        (x / 256 % 256) as u8,
        (x / 256 / 256 % 256) as u8,
        (x / 256 / 256 / 256) as u8,
    ]
}

/// The eight bytes of `x`, least significant first.
pub open spec fn u64_le(x: u64) -> Seq<u8> {
    seq![
        (x % 256) as u8,
        (x / 256 % 256) as u8,
        (x / 256 / 256 % 256) as u8,
        (x / 256 / 256 / 256 % 256) as u8,
        (x / 256 / 256 / 256 / 256 % 256) as u8,
        (x / 256 / 256 / 256 / 256 / 256 % 256) as u8,
        (x / 256 / 256 / 256 / 256 / 256 / 256 % 256) as u8,
        (x / 256 / 256 / 256 / 256 / 256 / 256 / 256) as u8,
    ]
}

/// The integer that the first two bytes of `b` stand for.
pub open spec fn le_u16(b: Seq<u8>) -> u16 {
    (b[0] as int + 0x100 * (b[1] as int)) as u16
}

/// The integer that the first four bytes of `b` stand for.
pub open spec fn le_u32(b: Seq<u8>) -> u32 {
    (b[0] as int + 0x100 * (b[1] as int) + 0x1_0000 * (b[2] as int) + 0x100_0000 * (b[3] as int)) as u32
}

/// The integer that the first eight bytes of `b` stand for.
pub open spec fn le_u64(b: Seq<u8>) -> u64 {
    (b[0] as int + 0x100 * (b[1] as int) + 0x1_0000 * (b[2] as int) + 0x100_0000 * (b[3] as int)
        + 0x1_0000_0000 * (b[4] as int) + 0x100_0000_0000 * (b[5] as int)
        + 0x1_0000_0000_0000 * (b[6] as int) + 0x100_0000_0000_0000 * (b[7] as int)) as u64
}

/// Reading back the bytes of a two-byte integer gives the integer.
pub proof fn lemma_u16_round_trip(x: u16)
    ensures
        u16_le(x).len() == 2,
        le_u16(u16_le(x)) == x,
{
}

/// Reading back the bytes of a four-byte integer gives the integer.
pub proof fn lemma_u32_round_trip(x: u32)
    ensures
        u32_le(x).len() == 4,
        le_u32(u32_le(x)) == x,
{
}

/// Reading back the bytes of an eight-byte integer gives the integer.
pub proof fn lemma_u64_round_trip(x: u64)
    ensures
        u64_le(x).len() == 8,
        le_u64(u64_le(x)) == x,
{
}

/// Two bytes are the bytes of the integer that they stand for.
pub proof fn lemma_u16_bytes(b: Seq<u8>)
    requires
        b.len() == 2,
    ensures
        u16_le(le_u16(b)) == b,
{
    assert(u16_le(le_u16(b)) =~= b);
}

/// Four bytes are the bytes of the integer that they stand for.
pub proof fn lemma_u32_bytes(b: Seq<u8>)
    requires
        b.len() == 4,
    ensures
        u32_le(le_u32(b)) == b,
{
    let x = le_u32(b) as int;
    let q3 = b[3] as int;
    let q2 = b[2] as int + 256 * q3;
    let q1 = b[1] as int + 256 * q2;
    assert(x == b[0] as int + 256 * q1);
    assert(x / 256 == q1 && x % 256 == b[0] as int);
    assert(q1 / 256 == q2 && q1 % 256 == b[1] as int);
    assert(q2 / 256 == q3 && q2 % 256 == b[2] as int);
    assert(u32_le(le_u32(b)) =~= b);
}

/// Eight bytes are the bytes of the integer that they stand for.
pub proof fn lemma_u64_bytes(b: Seq<u8>)
    requires
        b.len() == 8,
    ensures
        u64_le(le_u64(b)) == b,
{
    let x = le_u64(b) as int;
    let q7 = b[7] as int;
    let q6 = b[6] as int + 256 * q7;
    let q5 = b[5] as int + 256 * q6;
    let q4 = b[4] as int + 256 * q5;
    let q3 = b[3] as int + 256 * q4;
    let q2 = b[2] as int + 256 * q3;
    let q1 = b[1] as int + 256 * q2;
    assert(x == b[0] as int + 256 * q1);
    assert(x / 256 == q1 && x % 256 == b[0] as int);
    assert(q1 / 256 == q2 && q1 % 256 == b[1] as int);
    assert(q2 / 256 == q3 && q2 % 256 == b[2] as int);
    assert(q3 / 256 == q4 && q3 % 256 == b[3] as int);
    assert(q4 / 256 == q5 && q4 % 256 == b[4] as int);
    assert(q5 / 256 == q6 && q5 % 256 == b[5] as int);
    assert(q6 / 256 == q7 && q6 % 256 == b[6] as int);
    assert(u64_le(le_u64(b)) =~= b);
}

/// Appends the two bytes of `x` to `out`.
pub fn write_u16(out: &mut Vec<u8>, x: u16)
    ensures
        final(out)@ == old(out)@ + u16_le(x),
{
    out.push((x % 256) as u8);
    out.push((x / 256) as u8);
    assert(out@ =~= old(out)@ + u16_le(x));
}

/// Appends the four bytes of `x` to `out`.
pub fn write_u32(out: &mut Vec<u8>, x: u32)
    ensures
        final(out)@ == old(out)@ + u32_le(x),
{
    out.push((x % 256) as u8);
    out.push((x / 256 % 256) as u8);
    out.push((x / 256 / 256 % 256) as u8);
    out.push((x / 256 / 256 / 256) as u8);
    assert(out@ =~= old(out)@ + u32_le(x));
}

/// Appends the eight bytes of `x` to `out`.
pub fn write_u64(out: &mut Vec<u8>, x: u64)
    ensures
        final(out)@ == old(out)@ + u64_le(x),
{
    out.push((x % 256) as u8);
    out.push((x / 256 % 256) as u8);
    out.push((x / 256 / 256 % 256) as u8);
    out.push((x / 256 / 256 / 256 % 256) as u8);
    out.push((x / 256 / 256 / 256 / 256 % 256) as u8);
    out.push((x / 256 / 256 / 256 / 256 / 256 % 256) as u8);
    out.push((x / 256 / 256 / 256 / 256 / 256 / 256 % 256) as u8);
    out.push((x / 256 / 256 / 256 / 256 / 256 / 256 / 256) as u8);
    assert(out@ =~= old(out)@ + u64_le(x));
}

/// Reads the two-byte integer that starts at `pos`.
pub fn read_u16(bytes: &[u8], pos: usize) -> (r: u16)
    requires
        pos + 2 <= bytes@.len(),
    ensures
        r == le_u16(bytes@.subrange(pos as int, pos + 2)),
{
    (bytes[pos] as u16) + 0x100 * (bytes[pos + 1] as u16)
}

/// Reads the four-byte integer that starts at `pos`.
pub fn read_u32(bytes: &[u8], pos: usize) -> (r: u32)
    requires
        pos + 4 <= bytes@.len(),
    ensures
        r == le_u32(bytes@.subrange(pos as int, pos + 4)),
{
    (bytes[pos] as u32) + 0x100 * (bytes[pos + 1] as u32) + 0x1_0000 * (bytes[pos + 2] as u32)
        + 0x100_0000 * (bytes[pos + 3] as u32)
}

/// Reads the eight-byte integer that starts at `pos`.
pub fn read_u64(bytes: &[u8], pos: usize) -> (r: u64)
    requires
        pos + 8 <= bytes@.len(),
    ensures
        r == le_u64(bytes@.subrange(pos as int, pos + 8)),
{
    (bytes[pos] as u64) + 0x100 * (bytes[pos + 1] as u64) + 0x1_0000 * (bytes[pos + 2] as u64)
        + 0x100_0000 * (bytes[pos + 3] as u64) + 0x1_0000_0000 * (bytes[pos + 4] as u64)
        + 0x100_0000_0000 * (bytes[pos + 5] as u64) + 0x1_0000_0000_0000 * (bytes[pos + 6] as u64)
        + 0x100_0000_0000_0000 * (bytes[pos + 7] as u64)
}

} // verus!
