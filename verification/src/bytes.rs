//! Little-endian integers inside byte sequences.

use vstd::prelude::*;

verus! {

/// The 16-bit little-endian integer stored at `off`.
pub open spec fn le16(s: Seq<u8>, off: int) -> u16 {
    (s[off] + 0x100 * s[off + 1]) as u16
}

/// The 32-bit little-endian integer stored at `off`.
pub open spec fn le32(s: Seq<u8>, off: int) -> u32 {
    (le16(s, off) + 0x1_0000 * le16(s, off + 2)) as u32
}

/// The 64-bit little-endian integer stored at `off`.
pub open spec fn le64(s: Seq<u8>, off: int) -> u64 {
    (le32(s, off) + 0x1_0000_0000 * le32(s, off + 4)) as u64
}

pub fn read_u16(image: &[u8], off: usize) -> (r: u16)
    requires
        off + 2 <= image.len(),
    ensures
        r == le16(image@, off as int),
{
    image[off] as u16 + 0x100 * (image[off + 1] as u16)
}

pub fn read_u32(image: &[u8], off: usize) -> (r: u32)
    requires
        off + 4 <= image.len(),
    ensures
        r == le32(image@, off as int),
{
    read_u16(image, off) as u32 + 0x1_0000 * (read_u16(image, off + 2) as u32)
}

pub fn read_u64(image: &[u8], off: usize) -> (r: u64)
    requires
        off + 8 <= image.len(),
    ensures
        r == le64(image@, off as int),
{
    read_u32(image, off) as u64 + 0x1_0000_0000 * (read_u32(image, off + 4) as u64)
}

/// The bytes of a stored integer, from the least significant one on.
pub proof fn law_least_significant_byte_first(s: Seq<u8>, off: int)
    ensures
        le16(s, off) == s[off] + 0x100 * s[off + 1],
        le32(s, off) == s[off] + 0x100 * s[off + 1] + 0x1_0000 * s[off + 2] + 0x100_0000 * s[off
            + 3],
        le64(s, off) == s[off] + 0x100 * s[off + 1] + 0x1_0000 * s[off + 2] + 0x100_0000 * s[off
            + 3] + 0x1_0000_0000 * s[off + 4] + 0x100_0000_0000 * s[off + 5] + 0x1_0000_0000_0000
            * s[off + 6] + 0x100_0000_0000_0000 * s[off + 7],
{
}

} // verus!
