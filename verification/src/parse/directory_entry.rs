//! Decoder for one variable-length directory record: a fixed 33-byte header
//! followed by an identifier of stated length, padded to even length.

use vstd::prelude::*;

verus! {

broadcast use vstd::slice::group_slice_axioms;

use vstd::utf8::{valid_utf8, decode_utf8};

use crate::datetime::DateTime;
use crate::error::ISOError;
use crate::parse::both_endian::{le16_at, le32_at, both_endian16, both_endian32};
use crate::parse::date_time::{spec_date_time, date_time};
use crate::parse::volume_descriptor::CharacterEncoding;
use crate::text::{utf16be_decode, utf8_to_string, ucs2be_to_string, copy_range};

/// Bit set of a directory record's file-flags byte. Bits 5 and 6 are
/// reserved and dropped when the byte is read.
#[derive(Clone, Copy, Debug, PartialEq, Eq, Structural)]
pub struct FileFlags {
    pub bits: u8,
}

impl FileFlags {
    /// The entry's existence is hidden from the user (bit 0).
    pub open spec fn spec_existence(self) -> bool {
        self.bits & 0x01 != 0
    }

    /// The record describes a directory (bit 1).
    pub open spec fn spec_directory(self) -> bool {
        self.bits & 0x02 != 0
    }

    /// The record is auxiliary metadata for another file (bit 2); such
    /// entries are excluded from name lookups.
    pub open spec fn spec_associated_file(self) -> bool {
        self.bits & 0x04 != 0
    }

    /// The record's structure is described by an extended attribute (bit 3).
    pub open spec fn spec_record(self) -> bool {
        self.bits & 0x08 != 0
    }

    /// Permissions are described by an extended attribute (bit 4).
    pub open spec fn spec_protection(self) -> bool {
        self.bits & 0x10 != 0
    }

    /// The extent continues in a further record (bit 7).
    pub open spec fn spec_multi_extent(self) -> bool {
        self.bits & 0x80 != 0
    }

    /// Keep only the defined flag bits of a raw flags byte.
    pub fn from_bits_truncate(bits: u8) -> (r: FileFlags)
        ensures
            r.bits == bits & 0x9f,
    {
        FileFlags { bits: bits & 0x9f }
    }

    pub fn existence(&self) -> (r: bool)
        ensures
            r == self.spec_existence(),
    {
        self.bits & 0x01 != 0
    }

    pub fn directory(&self) -> (r: bool)
        ensures
            r == self.spec_directory(),
    {
        self.bits & 0x02 != 0
    }

    pub fn associated_file(&self) -> (r: bool)
        ensures
            r == self.spec_associated_file(),
    {
        self.bits & 0x04 != 0
    }

    pub fn record(&self) -> (r: bool)
        ensures
            r == self.spec_record(),
    {
        self.bits & 0x08 != 0
    }

    pub fn protection(&self) -> (r: bool)
        ensures
            r == self.spec_protection(),
    {
        self.bits & 0x10 != 0
    }

    pub fn multi_extent(&self) -> (r: bool)
        ensures
            r == self.spec_multi_extent(),
    {
        self.bits & 0x80 != 0
    }
}

/// The fixed 33-byte part of a directory record, decoded.
#[derive(Clone, Copy, Debug, PartialEq, Eq, Structural)]
pub struct DirectoryEntryHeader {
    /// Total record length in bytes: even, and at least 34.
    pub length: u8,
    pub extended_attribute_record_length: u8,
    /// First logical block of the extent.
    pub extent_loc: u32,
    /// Extent length in bytes; may be 0 for an empty file.
    pub extent_length: u32,
    pub time: DateTime,
    pub file_flags: FileFlags,
    pub file_unit_size: u8,
    pub interleave_gap_size: u8,
    pub volume_sequence_number: u16,
    /// How the record's identifier was encoded.
    pub character_encoding: CharacterEncoding,
}

/// The record at `pos` of block `blk` obeys the structural invariants:
/// its length is at least 34 and even, the record lies inside the block,
/// and the identifier lies inside the record and the block.
pub open spec fn spec_record_valid(blk: Seq<u8>, pos: int) -> bool
    recommends
        blk.len() == 2048,
        0 <= pos < 2015,
{
    let len = blk[pos] as int;
    let id_len = blk[pos + 32] as int;
    &&& 34 <= len
    &&& len % 2 == 0
    &&& pos + len <= 2048
    &&& id_len <= len
    &&& pos + 33 + id_len <= 2048
}

/// The decoded header of the record at `pos` of block `blk`.
pub open spec fn spec_record_header(blk: Seq<u8>, pos: int, enc: CharacterEncoding)
    -> DirectoryEntryHeader
    recommends
        blk.len() == 2048,
        0 <= pos < 2015,
{
    DirectoryEntryHeader {
        length: blk[pos],
        extended_attribute_record_length: blk[pos + 1],
        extent_loc: le32_at(blk, pos + 2),
        extent_length: le32_at(blk, pos + 10),
        time: spec_date_time(blk.subrange(pos + 18, pos + 25)),
        file_flags: FileFlags { bits: blk[pos + 25] & 0x9f },
        file_unit_size: blk[pos + 26],
        interleave_gap_size: blk[pos + 27],
        volume_sequence_number: le16_at(blk, pos + 28),
        character_encoding: enc,
    }
}

/// The raw identifier bytes of the record at `pos` of block `blk`.
pub open spec fn spec_record_id_bytes(blk: Seq<u8>, pos: int) -> Seq<u8>
    recommends
        blk.len() == 2048,
        0 <= pos < 2015,
        spec_record_valid(blk, pos),
{
    blk.subrange(pos + 33, pos + 33 + blk[pos + 32] as int)
}

/// The characters of a raw identifier. Plain volumes decode as UTF-8;
/// Joliet volumes keep the single bytes 0 and 1 as the literal self and
/// parent markers and decode everything else as UTF-16 big-endian.
/// `None` where the bytes do not decode.
pub open spec fn spec_decode_identifier(bytes: Seq<u8>, enc: CharacterEncoding) -> Option<
    Seq<char>,
> {
    if enc is Iso9660 {
        if valid_utf8(bytes) {
            Some(decode_utf8(bytes))
        } else {
            None
        }
    } else {
        if bytes.len() == 1 && bytes[0] == 0 {
            Some(seq!['\u{0}'])
        } else if bytes.len() == 1 && bytes[0] == 1 {
            Some(seq!['\u{1}'])
        } else {
            utf16be_decode(bytes)
        }
    }
}

/// Decode the directory record at `pos` of the 2048-byte block `blk`:
/// the fixed header and the identifier, decoded per `enc`.
///
/// A structural violation is `InvalidFs`; an identifier that does not
/// decode is `Utf8` or `Utf16`. Both are fatal, never skipped.
pub fn directory_entry(blk: &[u8], pos: usize, enc: CharacterEncoding) -> (r: Result<
    (DirectoryEntryHeader, String),
    ISOError,
>)
    requires
        blk@.len() == 2048,
        pos < 2015,
    ensures
        match r {
            Ok((h, id)) => spec_record_valid(blk@, pos as int) && h == spec_record_header(
                blk@,
                pos as int,
                enc,
            ) && spec_decode_identifier(spec_record_id_bytes(blk@, pos as int), enc) == Some(id@),
            Err(e) => match e {
                ISOError::InvalidFs(_) => !spec_record_valid(blk@, pos as int),
                ISOError::Utf8 => spec_record_valid(blk@, pos as int) && enc is Iso9660
                    && spec_decode_identifier(spec_record_id_bytes(blk@, pos as int), enc)
                    is None,
                ISOError::Utf16 => spec_record_valid(blk@, pos as int) && enc.is_joliet()
                    && spec_decode_identifier(spec_record_id_bytes(blk@, pos as int), enc)
                    is None,
                _ => false,
            },
        },
{
    let length = blk[pos];
    let id_len = blk[pos + 32];
    if length < 34 || length % 2 != 0 || (length as usize) > 2048 - pos || id_len > length || pos
        + 33 + (id_len as usize) > 2048 {
        return Err(ISOError::InvalidFs("malformed directory record"));
    }
    let header = DirectoryEntryHeader {
        length,
        extended_attribute_record_length: blk[pos + 1],
        extent_loc: both_endian32(blk, pos + 2),
        extent_length: both_endian32(blk, pos + 10),
        time: date_time(blk, pos + 18),
        file_flags: FileFlags::from_bits_truncate(blk[pos + 25]),
        file_unit_size: blk[pos + 26],
        interleave_gap_size: blk[pos + 27],
        volume_sequence_number: both_endian16(blk, pos + 28),
        character_encoding: enc,
    };
    let id_bytes = copy_range(blk, pos + 33, pos + 33 + id_len as usize);
    let ghost id_view = spec_record_id_bytes(blk@, pos as int);
    assert(id_bytes@ == id_view);
    let identifier: String;
    if matches!(enc, CharacterEncoding::Iso9660) {
        match utf8_to_string(id_bytes.as_slice()) {
            Some(s) => {
                identifier = s;
            },
            None => {
                return Err(ISOError::Utf8);
            },
        }
    } else {
        if id_bytes.len() == 1 && id_bytes[0] == 0 {
            identifier = self_marker();
        } else if id_bytes.len() == 1 && id_bytes[0] == 1 {
            identifier = parent_marker();
        } else {
            match ucs2be_to_string(id_bytes.as_slice()) {
                Some(s) => {
                    identifier = s;
                },
                None => {
                    return Err(ISOError::Utf16);
                },
            }
        }
    }
    Ok((header, identifier))
}

/// The raw self marker, the one-character string `"\u{0}"`.
fn self_marker() -> (r: String)
    ensures
        r@ =~= seq!['\u{0}'],
{
    let s = "\u{0}";
    proof {
        reveal_strlit("\u{0}");
    }
    s.to_owned()
}

/// The raw parent marker, the one-character string `"\u{1}"`.
fn parent_marker() -> (r: String)
    ensures
        r@ =~= seq!['\u{1}'],
{
    let s = "\u{1}";
    proof {
        reveal_strlit("\u{1}");
    }
    s.to_owned()
}

impl DirectoryEntryHeader {
    /// Decode the record at `pos` of `blk`; see [`directory_entry`].
    pub fn parse(blk: &[u8], pos: usize, enc: CharacterEncoding) -> (r: Result<
        (DirectoryEntryHeader, String),
        ISOError,
    >)
        requires
            blk@.len() == 2048,
            pos < 2015,
        ensures
            match r {
                Ok((h, id)) => spec_record_valid(blk@, pos as int) && h == spec_record_header(
                    blk@,
                    pos as int,
                    enc,
                ) && spec_decode_identifier(spec_record_id_bytes(blk@, pos as int), enc) == Some(
                    id@,
                ),
                Err(e) => match e {
                    ISOError::InvalidFs(_) => !spec_record_valid(blk@, pos as int),
                    ISOError::Utf8 => spec_record_valid(blk@, pos as int) && enc is Iso9660
                        && spec_decode_identifier(spec_record_id_bytes(blk@, pos as int), enc)
                        is None,
                    ISOError::Utf16 => spec_record_valid(blk@, pos as int) && enc.is_joliet()
                        && spec_decode_identifier(spec_record_id_bytes(blk@, pos as int), enc)
                        is None,
                    _ => false,
                },
            },
    {
        directory_entry(blk, pos, enc)
    }
}


/// On a plain (non-Joliet) volume an all-ASCII identifier decodes to
/// exactly its bytes, character for character.
pub proof fn lemma_ascii_identifier(bytes: Seq<u8>)
    requires
        crate::text::all_ascii(bytes),
    ensures
        spec_decode_identifier(bytes, CharacterEncoding::Iso9660) == Some(
            crate::text::ascii_seq(bytes),
        ),
{
    crate::text::lemma_ascii_decode(bytes);
}
} // verus!
