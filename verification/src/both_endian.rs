//! Owned copies of the on-disk both-endian integer fields.

use vstd::prelude::*;

verus! {

use crate::parse::both_endian::le16_at;
use crate::parse::both_endian::le32_at;
use crate::parse::both_endian::read_le_u16;
use crate::parse::both_endian::read_le_u32;

/// A 16-bit integer as stored on disk: a little-endian copy followed by a
/// big-endian copy. Only the little-endian copy is ever read.
#[derive(Clone, Copy, Debug)]
pub struct BothEndian16 {
    le: [u8; 2],
    #[allow(dead_code)]
    be: [u8; 2],
}

impl BothEndian16 {
    /// The value of the field: its little-endian copy.
    pub closed spec fn value(self) -> u16 {
        le16_at(self.le@, 0)
    }

    /// Capture the 4 field bytes at `off`.
    pub fn from_bytes(b: &[u8], off: usize) -> (r: BothEndian16)
        requires
            off + 4 <= b@.len(),
        ensures
            r.value() == le16_at(b@, off as int),
    {
        BothEndian16 {
            le: [b[off], b[off + 1]],
            be: [b[off + 2], b[off + 3]],
        }
    }

    pub fn get(&self) -> (r: u16)
        ensures
            r == self.value(),
    {
        let le: &[u8] = self.le.as_slice();
        read_le_u16(le, 0)
    }
}

/// A 32-bit integer as stored on disk: a little-endian copy followed by a
/// big-endian copy. Only the little-endian copy is ever read.
#[derive(Clone, Copy, Debug)]
pub struct BothEndian32 {
    le: [u8; 4],
    #[allow(dead_code)]
    be: [u8; 4],
}

impl BothEndian32 {
    /// The value of the field: its little-endian copy.
    pub closed spec fn value(self) -> u32 {
        le32_at(self.le@, 0)
    }

    /// Capture the 8 field bytes at `off`.
    pub fn from_bytes(b: &[u8], off: usize) -> (r: BothEndian32)
        requires
            off + 8 <= b@.len(),
        ensures
            r.value() == le32_at(b@, off as int),
    {
        BothEndian32 {
            le: [b[off], b[off + 1], b[off + 2], b[off + 3]],
            be: [b[off + 4], b[off + 5], b[off + 6], b[off + 7]],
        }
    }

    pub fn get(&self) -> (r: u32)
        ensures
            r == self.value(),
    {
        let le: &[u8] = self.le.as_slice();
        read_le_u32(le, 0)
    }
}

} // verus!
