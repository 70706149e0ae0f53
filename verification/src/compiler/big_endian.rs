//! Big-endian words in byte buffers, read and written with `byteorder`.
use byteorder::{ByteOrder, BE};
use vstd::prelude::*;

verus! {

/// The number that the first four bytes of `b` stand for, most significant
/// byte first.
pub open spec fn be_u32(b: Seq<u8>) -> u32 {
    (b[0] as int * 0x100_0000 + b[1] as int * 0x1_0000 + b[2] as int * 0x100 + b[3] as int) as u32
}

/// The number that the first two bytes of `b` stand for, most significant
/// byte first.
pub open spec fn be_u16(b: Seq<u8>) -> u16 {
    (b[0] as int * 0x100 + b[1] as int) as u16
}

/// The four bytes of `v`, most significant first.
pub open spec fn be_bytes(v: u32) -> Seq<u8> {
    seq![(v / 0x100_0000) as u8, (v / 0x1_0000 % 0x100) as u8, (v / 0x100 % 0x100) as u8, (v % 0x100) as u8]
}

/// byteorder's `BigEndian::read_u32`: the first four bytes of `buf` as a
/// big-endian number (the function panics on fewer than four bytes, which
/// `requires` leaves out).
#[verifier::external_body]
pub(crate) fn read_be_u32(buf: &[u8]) -> (r: u32)
    requires
        buf@.len() >= 4,
    ensures
        r == be_u32(buf@),
{
    BE::read_u32(buf)
}

/// byteorder's `BigEndian::read_u16`: the first two bytes of `buf` as a
/// big-endian number (the function panics on fewer than two bytes, which
/// `requires` leaves out).
#[verifier::external_body]
pub(crate) fn read_be_u16(buf: &[u8]) -> (r: u16)
    requires
        buf@.len() >= 2,
    ensures
        r == be_u16(buf@),
{
    BE::read_u16(buf)
}

/// byteorder's `BigEndian::write_u32` on the four bytes of `buf` from
/// `offset`: they become the bytes of `value`, most significant first, and
/// the rest of `buf` stays as it was.
#[verifier::external_body]
pub(crate) fn write_be_u32(buf: &mut Vec<u8>, offset: usize, value: u32)
    requires
        offset + 4 <= old(buf)@.len(),
    ensures
        final(buf)@ == old(buf)@.subrange(0, offset as int) + be_bytes(value) + old(buf)@.subrange(
            offset + 4,
            old(buf)@.len() as int,
        ),
{
    BE::write_u32(&mut buf[offset..offset + 4], value)
}

} // verus!
