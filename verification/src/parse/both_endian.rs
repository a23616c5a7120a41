//! ISO 9660 stores integers twice, little-endian first and big-endian
//! second. Only the little-endian copy is read; the Linux kernel does the
//! same, because some writers emit an incorrect big-endian mirror.

use vstd::prelude::*;

verus! {

/// Value of the 2-byte little-endian integer at `off`.
pub open spec fn le16_at(b: Seq<u8>, off: int) -> u16 {
    (b[off] as int + 256 * (b[off + 1] as int)) as u16
}

/// Value of the 4-byte little-endian integer at `off`.
pub open spec fn le32_at(b: Seq<u8>, off: int) -> u32 {
    (b[off] as int + 256 * (b[off + 1] as int) + 65536 * (b[off + 2] as int) + 16777216 * (b[off
        + 3] as int)) as u32
}

/// Read the 2-byte little-endian integer at `off`.
pub fn read_le_u16(b: &[u8], off: usize) -> (r: u16)
    requires
        off + 2 <= b@.len(),
    ensures
        r == le16_at(b@, off as int),
{
    let lo = b[off] as u16;
    let hi = b[off + 1] as u16;
    lo + hi * 256
}

/// Read the 4-byte little-endian integer at `off`.
pub fn read_le_u32(b: &[u8], off: usize) -> (r: u32)
    requires
        off + 4 <= b@.len(),
    ensures
        r == le32_at(b@, off as int),
{
    let b0 = b[off] as u32;
    let b1 = b[off + 1] as u32;
    let b2 = b[off + 2] as u32;
    let b3 = b[off + 3] as u32;
    b0 + b1 * 256 + b2 * 65536 + b3 * 16777216
}

/// Decode a both-endian 16-bit field (4 bytes at `off`); only the leading
/// little-endian copy is used.
pub fn both_endian16(b: &[u8], off: usize) -> (r: u16)
    requires
        off + 4 <= b@.len(),
    ensures
        r == le16_at(b@, off as int),
{
    read_le_u16(b, off)
}

/// Decode a both-endian 32-bit field (8 bytes at `off`); only the leading
/// little-endian copy is used.
pub fn both_endian32(b: &[u8], off: usize) -> (r: u32)
    requires
        off + 8 <= b@.len(),
    ensures
        r == le32_at(b@, off as int),
{
    read_le_u32(b, off)
}

} // verus!
