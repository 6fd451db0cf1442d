use byteorder::{BigEndian, WriteBytesExt};
use vstd::prelude::*;

verus! {

/// The two bytes of `value`, most significant first.
pub open spec fn be_bytes_u16(value: u16) -> Seq<u8> {
    seq![(value / 0x100) as u8, (value % 0x100) as u8]
}

/// The eight bytes of `value`, most significant first.
pub open spec fn be_bytes_u64(value: u64) -> Seq<u8> {
    Seq::new(8, |i: int| be_byte_u64(value, i))
}

/// Byte `i` of `value`, counted from the most significant one.
pub open spec fn be_byte_u64(value: u64, i: int) -> u8 {
    if i == 0 {
        (value / 0x100_0000_0000_0000) as u8
    } else if i == 1 {
        (value / 0x1_0000_0000_0000 % 0x100) as u8
    } else if i == 2 {
        (value / 0x100_0000_0000 % 0x100) as u8
    } else if i == 3 {
        (value / 0x1_0000_0000 % 0x100) as u8
    } else if i == 4 {
        (value / 0x100_0000 % 0x100) as u8
    } else if i == 5 {
        (value / 0x1_0000 % 0x100) as u8
    } else if i == 6 {
        (value / 0x100 % 0x100) as u8
    } else {
        (value % 0x100) as u8
    }
}

/// `bytes` with the eight bytes from `offset` on replaced by `value`, most
/// significant byte first.
pub open spec fn overwritten_u64(bytes: Seq<u8>, offset: int, value: u64) -> Seq<u8> {
    bytes.subrange(0, offset) + be_bytes_u64(value) + bytes.subrange(offset + 8, bytes.len() as int)
}

/// Calls byteorder's `WriteBytesExt::write_u64::<BigEndian>` on the part of
/// `at` that starts at `offset`. That part is a slice of at least eight bytes,
/// so the write cannot fail: it stores the big-endian bytes of `value` over the
/// first eight bytes of the slice and leaves every other byte as it was.
#[verifier::external_body]
pub fn overwrite_u64(at: &mut Vec<u8>, offset: usize, value: u64)
    requires
        offset + 8 <= old(at)@.len(),
    ensures
        final(at)@ == overwritten_u64(old(at)@, offset as int, value),
{
    let mut tail: &mut [u8] = &mut at[offset..];
    tail.write_u64::<BigEndian>(value).expect("Failed to overwrite u64");
}

/// Calls byteorder's `WriteBytesExt::write_u8` on a `Vec<u8>`, which appends
/// the byte `value` and nothing else.
#[verifier::external_body]
pub fn write_u8(to: &mut Vec<u8>, value: u8)
    ensures
        final(to)@ == old(to)@.push(value),
{
    to.write_u8(value).expect("Failed to write u8");
}

/// Calls byteorder's `WriteBytesExt::write_u16::<BigEndian>` on a `Vec<u8>`,
/// which appends the two bytes of `value`, most significant first.
#[verifier::external_body]
pub fn write_u16(to: &mut Vec<u8>, value: u16)
    ensures
        final(to)@ == old(to)@ + be_bytes_u16(value),
{
    to.write_u16::<BigEndian>(value).expect("Failed to write u16");
}

/// Calls byteorder's `WriteBytesExt::write_u64::<BigEndian>` on a `Vec<u8>`,
/// which appends the eight bytes of `value`, most significant first.
#[verifier::external_body]
pub fn write_u64(to: &mut Vec<u8>, value: u64)
    ensures
        final(to)@ == old(to)@ + be_bytes_u64(value),
{
    to.write_u64::<BigEndian>(value).expect("Failed to write u64");
}

} // verus!
