//! Error type shared by every fallible operation of the crate.

use vstd::prelude::*;

verus! {

/// What can go wrong while mounting or navigating an ISO 9660 image.
///
/// "Entry not found" and "end of file" are deliberately *not* errors: lookups
/// return `None` and reads return zero bytes for those outcomes.
#[derive(Debug, PartialEq, Eq)]
pub enum ISOError {
    /// The byte source failed; produced by byte-source adapters, never by the
    /// decoding logic itself.
    Io,
    /// An identifier or text field was not valid UTF-8.
    Utf8,
    /// A Joliet identifier was not valid UCS-2 / UTF-16BE.
    Utf16,
    /// A structural violation of the on-disk format, with a short reason.
    InvalidFs(&'static str),
    /// A fixed-width ASCII numeric field held something besides digits, or
    /// its value was out of range.
    ParseInt,
    /// The byte source returned fewer bytes than a full block where a full
    /// block was required: `ReadSize(expected, actual)`.
    ReadSize(usize, usize),
}

} // verus!
