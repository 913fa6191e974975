//! Little-endian byte encodings of the fixed-width integers that appear in
//! method headers, instruction operands and exception-handler tables.

use vstd::prelude::*;

verus! {

/// The two little-endian bytes of a `u16`.
pub open spec fn le16(v: u16) -> Seq<u8> {
    seq![(v % 0x100) as u8, (v / 0x100) as u8]
}

/// The four little-endian bytes of a `u32`.
pub open spec fn le32(v: u32) -> Seq<u8> {
    seq![
        (v % 0x100) as u8,
        ((v / 0x100) % 0x100) as u8,
        ((v / 0x1_0000) % 0x100) as u8,
        (v / 0x100_0000) as u8,
    ]
}

/// The eight little-endian bytes of a `u64`.
pub open spec fn le64(v: u64) -> Seq<u8> {
    seq![
        (v % 0x100) as u8,
        ((v / 0x100) % 0x100) as u8,
        ((v / 0x1_0000) % 0x100) as u8,
        ((v / 0x100_0000) % 0x100) as u8,
        ((v / 0x1_0000_0000) % 0x100) as u8,
        ((v / 0x100_0000_0000) % 0x100) as u8,
        ((v / 0x1_0000_0000_0000) % 0x100) as u8,
        (v / 0x100_0000_0000_0000) as u8,
    ]
}

/// The three little-endian bytes of a 24-bit value (the high byte of the
/// `u32` is dropped).
pub open spec fn le24(v: u32) -> Seq<u8> {
    seq![(v % 0x100) as u8, ((v / 0x100) % 0x100) as u8, ((v / 0x1_0000) % 0x100) as u8]
}

/// The `u32` three little-endian bytes stand for.
pub open spec fn u24_le(b0: u8, b1: u8, b2: u8) -> u32 {
    (b0 + b1 * 0x100 + b2 * 0x1_0000) as u32
}

/// Reading back the three bytes of [`le24`] restores a 24-bit value.
pub proof fn lemma_le24_round_trip(v: u32)
    requires
        v < 0x100_0000,
    ensures
        u24_le(le24(v)[0], le24(v)[1], le24(v)[2]) == v,
{
}

/// Append the three little-endian bytes of a 24-bit value.
pub fn push_le24(bytes: &mut Vec<u8>, v: u32)
    ensures
        final(bytes)@ == old(bytes)@ + le24(v),
{
    bytes.push((v % 0x100) as u8);
    bytes.push(((v / 0x100) % 0x100) as u8);
    bytes.push(((v / 0x1_0000) % 0x100) as u8);
    assert(final(bytes)@ =~= old(bytes)@ + le24(v));
}

/// Read the 24-bit value at offset `i`.
pub fn read_u24_le(bytes: &[u8], i: usize) -> (v: u32)
    requires
        i + 3 <= bytes@.len(),
    ensures
        v == u24_le(bytes@[i as int], bytes@[i + 1], bytes@[i + 2]),
        v < 0x100_0000,
{
    (bytes[i] as u32) + (bytes[i + 1] as u32) * 0x100 + (bytes[i + 2] as u32) * 0x1_0000
}

/// The `u16` two little-endian bytes stand for.
pub open spec fn u16_le(b0: u8, b1: u8) -> u16 {
    (b0 + b1 * 0x100) as u16
}

/// The `u32` four little-endian bytes stand for.
pub open spec fn u32_le(b0: u8, b1: u8, b2: u8, b3: u8) -> u32 {
    (b0 + b1 * 0x100 + b2 * 0x1_0000 + b3 * 0x100_0000) as u32
}

/// The `i32` four little-endian bytes stand for (two's complement).
pub open spec fn i32_le(b0: u8, b1: u8, b2: u8, b3: u8) -> i32 {
    u32_le(b0, b1, b2, b3) as i32
}

/// Reading back the two bytes of [`le16`] restores the value.
pub proof fn lemma_le16_round_trip(v: u16)
    ensures
        u16_le(le16(v)[0], le16(v)[1]) == v,
{
}

/// Reading back the four bytes of [`le32`] restores the value.
pub proof fn lemma_le32_round_trip(v: u32)
    ensures
        u32_le(le32(v)[0], le32(v)[1], le32(v)[2], le32(v)[3]) == v,
{
}

/// Append the two little-endian bytes of a `u16`.
pub fn push_le16(bytes: &mut Vec<u8>, v: u16)
    ensures
        final(bytes)@ == old(bytes)@ + le16(v),
{
    bytes.push((v % 0x100) as u8);
    bytes.push((v / 0x100) as u8);
    assert(final(bytes)@ =~= old(bytes)@ + le16(v));
}

/// Append the four little-endian bytes of a `u32`.
pub fn push_le32(bytes: &mut Vec<u8>, v: u32)
    ensures
        final(bytes)@ == old(bytes)@ + le32(v),
{
    bytes.push((v % 0x100) as u8);
    bytes.push(((v / 0x100) % 0x100) as u8);
    bytes.push(((v / 0x1_0000) % 0x100) as u8);
    bytes.push((v / 0x100_0000) as u8);
    assert(final(bytes)@ =~= old(bytes)@ + le32(v));
}

/// Append the eight little-endian bytes of a `u64`.
pub fn push_le64(bytes: &mut Vec<u8>, v: u64)
    ensures
        final(bytes)@ == old(bytes)@ + le64(v),
{
    bytes.push((v % 0x100) as u8);
    bytes.push(((v / 0x100) % 0x100) as u8);
    bytes.push(((v / 0x1_0000) % 0x100) as u8);
    bytes.push(((v / 0x100_0000) % 0x100) as u8);
    bytes.push(((v / 0x1_0000_0000) % 0x100) as u8);
    bytes.push(((v / 0x100_0000_0000) % 0x100) as u8);
    bytes.push(((v / 0x1_0000_0000_0000) % 0x100) as u8);
    bytes.push((v / 0x100_0000_0000_0000) as u8);
    assert(final(bytes)@ =~= old(bytes)@ + le64(v));
}

/// Read the `u16` at offset `i`.
pub fn read_u16_le(bytes: &[u8], i: usize) -> (v: u16)
    requires
        i + 2 <= bytes@.len(),
    ensures
        v == u16_le(bytes@[i as int], bytes@[i + 1]),
{
    (bytes[i] as u16) + (bytes[i + 1] as u16) * 0x100
}

/// Read the `u32` at offset `i`.
pub fn read_u32_le(bytes: &[u8], i: usize) -> (v: u32)
    requires
        i + 4 <= bytes@.len(),
    ensures
        v == u32_le(bytes@[i as int], bytes@[i + 1], bytes@[i + 2], bytes@[i + 3]),
{
    (bytes[i] as u32) + (bytes[i + 1] as u32) * 0x100 + (bytes[i + 2] as u32) * 0x1_0000 + (bytes[i
        + 3] as u32) * 0x100_0000
}

} // verus!
