//! Volume descriptors: one 2048-byte block each, scanned from LBA 16 at
//! mount time.

use vstd::prelude::*;

verus! {

broadcast use vstd::slice::group_slice_axioms;

use vstd::utf8::{valid_utf8, decode_utf8};

use crate::datetime::DateTimeAscii;
use crate::error::ISOError;
use crate::parse::both_endian::{le16_at, le32_at, both_endian16, both_endian32, read_le_u32};
use crate::parse::date_time::{spec_ascii_digits_ok, spec_date_time_ascii, date_time_ascii};
use crate::parse::directory_entry::{
    DirectoryEntryHeader,
    spec_record_valid,
    spec_record_header,
    spec_record_id_bytes,
    spec_decode_identifier,
    directory_entry,
};
use crate::text::{utf8_to_string, copy_range};

/// How identifiers of a volume are encoded, detected once per descriptor
/// from its 32-byte escape-sequence field.
#[derive(Clone, Copy, Debug, PartialEq, Eq, Structural)]
pub enum CharacterEncoding {
    /// a-characters / d-characters; effectively ASCII, decoded as UTF-8.
    Iso9660,
    /// Joliet, UCS-2 level 1 (UTF-16 big-endian code units).
    Ucs2Level1,
    /// Joliet, UCS-2 level 2.
    Ucs2Level2,
    /// Joliet, UCS-2 level 3.
    Ucs2Level3,
}

impl CharacterEncoding {
    /// The identifiers are UCS-2 / UTF-16BE rather than ASCII.
    pub open spec fn is_joliet(self) -> bool {
        self != CharacterEncoding::Iso9660
    }
}

/// Encoding named by a 32-byte escape-sequence field: one of the three
/// registered UCS-2 designations, or plain ISO 9660 for anything else
/// (permissive fallback; unrecognized content is not an error).
pub open spec fn spec_encoding(esc: Seq<u8>) -> CharacterEncoding
    recommends
        esc.len() == 32,
{
    if esc[0] == 0x25 && esc[1] == 0x2f && esc[2] == 0x40 {
        CharacterEncoding::Ucs2Level1
    } else if esc[0] == 0x25 && esc[1] == 0x2f && esc[2] == 0x43 {
        CharacterEncoding::Ucs2Level2
    } else if esc[0] == 0x25 && esc[1] == 0x2f && esc[2] == 0x45 {
        CharacterEncoding::Ucs2Level3
    } else {
        CharacterEncoding::Iso9660
    }
}

impl CharacterEncoding {
    /// Detect the encoding from the escape-sequence field at `off`
    /// (an ISO 2022 "designate other coding system" sequence: ESC 0x25 0x2F,
    /// final byte 0x40/0x43/0x45 for UCS-2 level 1/2/3).
    pub fn parse(b: &[u8], off: usize) -> (r: CharacterEncoding)
        requires
            off + 32 <= b@.len(),
        ensures
            r == spec_encoding(b@.subrange(off as int, off as int + 32)),
    {
        let e0 = b[off];
        let e1 = b[off + 1];
        let e2 = b[off + 2];
        if e0 == 0x25 && e1 == 0x2f && e2 == 0x40 {
            CharacterEncoding::Ucs2Level1
        } else if e0 == 0x25 && e1 == 0x2f && e2 == 0x43 {
            CharacterEncoding::Ucs2Level2
        } else if e0 == 0x25 && e1 == 0x2f && e2 == 0x45 {
            CharacterEncoding::Ucs2Level3
        } else {
            CharacterEncoding::Iso9660
        }
    }
}

/// `b` with its trailing padding spaces removed.
pub open spec fn spec_trim_spaces(b: Seq<u8>) -> Seq<u8>
    decreases b.len(),
{
    if b.len() > 0 && b[b.len() - 1] == 0x20 {
        spec_trim_spaces(b.drop_last())
    } else {
        b
    }
}

/// The space-padded text field `b` decodes: its trimmed bytes are valid
/// UTF-8.
pub open spec fn spec_str_field_ok(b: Seq<u8>) -> bool {
    valid_utf8(spec_trim_spaces(b))
}

/// The characters of the space-padded text field `b`.
pub open spec fn spec_str_field(b: Seq<u8>) -> Seq<char> {
    decode_utf8(spec_trim_spaces(b))
}

/// Decode a space-padded text field: trailing padding spaces are dropped,
/// the rest must be valid UTF-8 or the field is an `ISOError::Utf8`.
pub fn identifier_to_string(identifier: &[u8]) -> (r: Result<String, ISOError>)
    ensures
        match r {
            Ok(s) => spec_str_field_ok(identifier@) && s@ == spec_str_field(identifier@),
            Err(e) => !spec_str_field_ok(identifier@) && e matches ISOError::Utf8,
        },
{
    let n = identifier.len();
    let mut end: usize = n;
    proof {
        assert(identifier@.subrange(0, n as int) =~= identifier@);
    }
    while end > 0 && identifier[end - 1] == 0x20
        invariant
            end <= n == identifier@.len(),
            spec_trim_spaces(identifier@) == spec_trim_spaces(
                identifier@.subrange(0, end as int),
            ),
        decreases end,
    {
        proof {
            assert(identifier@.subrange(0, end as int).drop_last() =~= identifier@.subrange(
                0,
                end - 1,
            ));
        }
        end = end - 1;
    }
    proof {
        assert(spec_trim_spaces(identifier@.subrange(0, end as int)) == identifier@.subrange(
            0,
            end as int,
        ));
    }
    let trimmed = copy_range(identifier, 0, end);
    match utf8_to_string(trimmed.as_slice()) {
        Some(s) => Ok(s),
        None => Err(ISOError::Utf8),
    }
}

/// A decoded Primary or Supplementary volume descriptor.
#[derive(Debug)]
pub struct VolumeDescriptorTable {
    pub system_identifier: String,
    pub volume_identifier: String,
    /// How this volume's identifiers are encoded.
    pub character_encoding: CharacterEncoding,
    /// Total blocks of the volume.
    pub volume_space_size: u32,
    pub volume_set_size: u16,
    pub volume_sequence_number: u16,
    /// Must equal 2048, or mounting fails.
    pub logical_block_size: u16,
    pub path_table_size: u32,
    pub path_table_loc: u32,
    pub optional_path_table_loc: u32,
    /// The root directory's record, embedded in the descriptor.
    pub root_directory_entry: DirectoryEntryHeader,
    /// The root record's identifier as written (normally the single byte 0).
    pub root_directory_entry_identifier: String,
    pub volume_set_identifier: String,
    pub publisher_identifier: String,
    pub data_preparer_identifier: String,
    pub application_identifier: String,
    pub copyright_file_identifier: String,
    pub abstract_file_identifier: String,
    pub bibliographic_file_identifier: String,
    pub creation_time: DateTimeAscii,
    pub modification_time: DateTimeAscii,
    pub expiration_time: DateTimeAscii,
    pub effective_time: DateTimeAscii,
    pub file_structure_version: u8,
}

/// The encoding a descriptor block names in its escape-sequence field.
pub open spec fn spec_table_encoding(blk: Seq<u8>) -> CharacterEncoding
    recommends
        blk.len() == 2048,
{
    spec_encoding(blk.subrange(88, 120))
}

/// Every fallible field of a Primary or Supplementary descriptor block
/// decodes: the text fields are valid UTF-8 after trimming, the four ASCII
/// timestamps hold digits, and the embedded root directory record is
/// structurally valid with a decodable identifier.
pub open spec fn spec_table_wf(blk: Seq<u8>) -> bool
    recommends
        blk.len() == 2048,
{
    &&& spec_str_field_ok(blk.subrange(8, 40))
    &&& spec_str_field_ok(blk.subrange(40, 72))
    &&& spec_str_field_ok(blk.subrange(190, 318))
    &&& spec_str_field_ok(blk.subrange(318, 446))
    &&& spec_str_field_ok(blk.subrange(446, 574))
    &&& spec_str_field_ok(blk.subrange(574, 702))
    &&& spec_str_field_ok(blk.subrange(702, 740))
    &&& spec_str_field_ok(blk.subrange(740, 776))
    &&& spec_str_field_ok(blk.subrange(776, 813))
    &&& spec_ascii_digits_ok(blk.subrange(813, 830))
    &&& spec_ascii_digits_ok(blk.subrange(830, 847))
    &&& spec_ascii_digits_ok(blk.subrange(847, 864))
    &&& spec_ascii_digits_ok(blk.subrange(864, 881))
    &&& spec_record_valid(blk, 156)
    &&& spec_decode_identifier(spec_record_id_bytes(blk, 156), spec_table_encoding(blk)) is Some
}

/// Every field of `t` holds exactly what descriptor block `blk` stores for
/// it, at the standard offsets.
pub open spec fn spec_table_matches(blk: Seq<u8>, t: VolumeDescriptorTable) -> bool
    recommends
        blk.len() == 2048,
{
    &&& t.system_identifier@ == spec_str_field(blk.subrange(8, 40))
    &&& t.volume_identifier@ == spec_str_field(blk.subrange(40, 72))
    &&& t.character_encoding == spec_table_encoding(blk)
    &&& t.volume_space_size == le32_at(blk, 80)
    &&& t.volume_set_size == le16_at(blk, 120)
    &&& t.volume_sequence_number == le16_at(blk, 124)
    &&& t.logical_block_size == le16_at(blk, 128)
    &&& t.path_table_size == le32_at(blk, 132)
    &&& t.path_table_loc == le32_at(blk, 140)
    &&& t.optional_path_table_loc == le32_at(blk, 144)
    &&& t.root_directory_entry == spec_record_header(blk, 156, spec_table_encoding(blk))
    &&& Some(t.root_directory_entry_identifier@) == spec_decode_identifier(
        spec_record_id_bytes(blk, 156),
        spec_table_encoding(blk),
    )
    &&& t.volume_set_identifier@ == spec_str_field(blk.subrange(190, 318))
    &&& t.publisher_identifier@ == spec_str_field(blk.subrange(318, 446))
    &&& t.data_preparer_identifier@ == spec_str_field(blk.subrange(446, 574))
    &&& t.application_identifier@ == spec_str_field(blk.subrange(574, 702))
    &&& t.copyright_file_identifier@ == spec_str_field(blk.subrange(702, 740))
    &&& t.abstract_file_identifier@ == spec_str_field(blk.subrange(740, 776))
    &&& t.bibliographic_file_identifier@ == spec_str_field(blk.subrange(776, 813))
    &&& t.creation_time == spec_date_time_ascii(blk.subrange(813, 830))
    &&& t.modification_time == spec_date_time_ascii(blk.subrange(830, 847))
    &&& t.expiration_time == spec_date_time_ascii(blk.subrange(847, 864))
    &&& t.effective_time == spec_date_time_ascii(blk.subrange(864, 881))
    &&& t.file_structure_version == blk[881]
}

/// Decode the fixed-offset fields of a Primary or Supplementary descriptor
/// block (padding bytes are skipped, not validated). The contract ties every
/// field of the result to the bytes it was decoded from.
pub fn descriptor_table(blk: &[u8]) -> (r: Result<VolumeDescriptorTable, ISOError>)
    requires
        blk@.len() == 2048,
    ensures
        match r {
            Ok(t) => spec_table_wf(blk@) && spec_table_matches(blk@, t),
            Err(e) => !spec_table_wf(blk@) && (e matches ISOError::Utf8 || e matches
                ISOError::Utf16 || e matches ISOError::ParseInt || e matches ISOError::InvalidFs(
                _,
            )),
        },
{
    let system_identifier = str_field(blk, 8, 40)?;
    let volume_identifier = str_field(blk, 40, 72)?;
    let character_encoding = CharacterEncoding::parse(blk, 88);
    let volume_space_size = both_endian32(blk, 80);
    let volume_set_size = both_endian16(blk, 120);
    let volume_sequence_number = both_endian16(blk, 124);
    let logical_block_size = both_endian16(blk, 128);
    let path_table_size = both_endian32(blk, 132);
    let path_table_loc = read_le_u32(blk, 140);
    let optional_path_table_loc = read_le_u32(blk, 144);
    let (root_directory_entry, root_directory_entry_identifier) = directory_entry(
        blk,
        156,
        character_encoding,
    )?;
    let volume_set_identifier = str_field(blk, 190, 318)?;
    let publisher_identifier = str_field(blk, 318, 446)?;
    let data_preparer_identifier = str_field(blk, 446, 574)?;
    let application_identifier = str_field(blk, 574, 702)?;
    let copyright_file_identifier = str_field(blk, 702, 740)?;
    let abstract_file_identifier = str_field(blk, 740, 776)?;
    let bibliographic_file_identifier = str_field(blk, 776, 813)?;
    let creation_time = date_time_ascii(blk, 813)?;
    let modification_time = date_time_ascii(blk, 830)?;
    let expiration_time = date_time_ascii(blk, 847)?;
    let effective_time = date_time_ascii(blk, 864)?;
    let file_structure_version = blk[881];
    Ok(
        VolumeDescriptorTable {
            system_identifier,
            volume_identifier,
            character_encoding,
            volume_space_size,
            volume_set_size,
            volume_sequence_number,
            logical_block_size,
            path_table_size,
            path_table_loc,
            optional_path_table_loc,
            root_directory_entry,
            root_directory_entry_identifier,
            volume_set_identifier,
            publisher_identifier,
            data_preparer_identifier,
            application_identifier,
            copyright_file_identifier,
            abstract_file_identifier,
            bibliographic_file_identifier,
            creation_time,
            modification_time,
            expiration_time,
            effective_time,
            file_structure_version,
        },
    )
}

/// Decode the space-padded text field `[lo, hi)` of a block.
fn str_field(blk: &[u8], lo: usize, hi: usize) -> (r: Result<String, ISOError>)
    requires
        lo <= hi <= blk@.len(),
    ensures
        match r {
            Ok(s) => spec_str_field_ok(blk@.subrange(lo as int, hi as int)) && s@
                == spec_str_field(blk@.subrange(lo as int, hi as int)),
            Err(e) => !spec_str_field_ok(blk@.subrange(lo as int, hi as int)) && e matches
                ISOError::Utf8,
        },
{
    let field = copy_range(blk, lo, hi);
    identifier_to_string(field.as_slice())
}


/// The descriptor block begins with the mandatory tag: any type byte, the
/// literal `"CD001"`, version byte 1.
pub open spec fn spec_magic_ok(blk: Seq<u8>) -> bool
    recommends
        blk.len() == 2048,
{
    blk[1] == 0x43 && blk[2] == 0x44 && blk[3] == 0x30 && blk[4] == 0x30 && blk[5] == 0x31
        && blk[6] == 1
}

/// What kind of descriptor a block is, by its tag and type byte.
pub enum DescriptorClass {
    /// The `"CD001"`/version-1 check failed: not an ISO 9660 image.
    BadMagic,
    Boot,
    Primary,
    Supplementary,
    Terminator,
    /// A type byte this crate does not know; skipped, not an error.
    Unknown,
}

/// Classify descriptor block `blk`.
pub open spec fn spec_descriptor_class(blk: Seq<u8>) -> DescriptorClass
    recommends
        blk.len() == 2048,
{
    if !spec_magic_ok(blk) {
        DescriptorClass::BadMagic
    } else if blk[0] == 0 {
        DescriptorClass::Boot
    } else if blk[0] == 1 {
        DescriptorClass::Primary
    } else if blk[0] == 2 {
        DescriptorClass::Supplementary
    } else if blk[0] == 255 {
        DescriptorClass::Terminator
    } else {
        DescriptorClass::Unknown
    }
}

/// The two text fields of a boot record decode.
pub open spec fn spec_boot_wf(blk: Seq<u8>) -> bool
    recommends
        blk.len() == 2048,
{
    spec_str_field_ok(blk.subrange(7, 39)) && spec_str_field_ok(blk.subrange(39, 71))
}

/// One volume descriptor block, decoded into its variant. Produced
/// transiently while scanning LBA 16 onward; the terminator stops the scan.
#[derive(Debug)]
pub enum VolumeDescriptor {
    Primary(VolumeDescriptorTable),
    Supplementary(VolumeDescriptorTable),
    BootRecord {
        boot_system_identifier: String,
        boot_identifier: String,
        data: Vec<u8>,
    },
    VolumeDescriptorSetTerminator,
}

impl VolumeDescriptor {
    /// Decode one 2048-byte descriptor block: check the `"CD001"`/version-1
    /// tag, then dispatch on the type byte. Unknown type bytes give
    /// `Ok(None)` (skipped); a bad tag is a fatal `InvalidFs`.
    pub fn parse(blk: &[u8]) -> (r: Result<Option<VolumeDescriptor>, ISOError>)
        requires
            blk@.len() == 2048,
        ensures
            match r {
                Ok(od) => spec_magic_ok(blk@) && match od {
                    None => spec_descriptor_class(blk@) is Unknown,
                    Some(vd) => match vd {
                        VolumeDescriptor::Primary(t) => blk@[0] == 1 && spec_table_wf(blk@)
                            && spec_table_matches(blk@, t),
                        VolumeDescriptor::Supplementary(t) => blk@[0] == 2 && spec_table_wf(blk@)
                            && spec_table_matches(blk@, t),
                        VolumeDescriptor::BootRecord {
                            boot_system_identifier,
                            boot_identifier,
                            data,
                        } => blk@[0] == 0 && spec_boot_wf(blk@) && boot_system_identifier@
                            == spec_str_field(blk@.subrange(7, 39)) && boot_identifier@
                            == spec_str_field(blk@.subrange(39, 71)) && data@ == blk@.subrange(
                            71,
                            2048,
                        ),
                        VolumeDescriptor::VolumeDescriptorSetTerminator => blk@[0] == 255,
                    },
                },
                Err(e) => {
                    &&& (!spec_magic_ok(blk@) || (spec_descriptor_class(blk@) is Boot
                        && !spec_boot_wf(blk@)) || (spec_descriptor_class(blk@) is Primary
                        && !spec_table_wf(blk@)) || (spec_descriptor_class(blk@) is Supplementary
                        && !spec_table_wf(blk@)))
                    &&& (!spec_magic_ok(blk@) ==> e matches ISOError::InvalidFs(_))
                    &&& (e matches ISOError::Utf8 || e matches ISOError::Utf16 || e matches
                    ISOError::ParseInt || e matches ISOError::InvalidFs(_))
                },
            },
    {
        let type_code = blk[0];
        if !(blk[1] == 0x43 && blk[2] == 0x44 && blk[3] == 0x30 && blk[4] == 0x30 && blk[5] == 0x31
            && blk[6] == 1) {
            return Err(ISOError::InvalidFs("not an ISO 9660 descriptor"));
        }
        if type_code == 0 {
            let boot_system_identifier = str_field(blk, 7, 39)?;
            let boot_identifier = str_field(blk, 39, 71)?;
            let data = copy_range(blk, 71, 2048);
            Ok(
                Some(
                    VolumeDescriptor::BootRecord {
                        boot_system_identifier,
                        boot_identifier,
                        data,
                    },
                ),
            )
        } else if type_code == 1 {
            let table = descriptor_table(blk)?;
            Ok(Some(VolumeDescriptor::Primary(table)))
        } else if type_code == 2 {
            let table = descriptor_table(blk)?;
            Ok(Some(VolumeDescriptor::Supplementary(table)))
        } else if type_code == 255 {
            Ok(Some(VolumeDescriptor::VolumeDescriptorSetTerminator))
        } else {
            Ok(None)
        }
    }
}

} // verus!
