//! Read-only decoder and navigator for the ISO 9660 optical-disc filesystem,
//! including the Joliet (UCS-2) extension.
//!
//! The crate exposes a filesystem tree over an arbitrary random-access byte
//! source: volume descriptors are scanned at mount time, directories are
//! enumerated lazily one 2048-byte block at a time, and file contents are
//! read through a seekable, block-buffered reader.

use vstd::prelude::*;

mod both_endian;
mod datetime;
mod directory_entry;
mod error;
mod fileref;
mod parse;
mod text;

pub use both_endian::{BothEndian16, BothEndian32};
pub use directory_entry::DirectoryEntry;
pub use directory_entry::isodirectory::{ISODirectory, ISODirectoryIterator};
pub use directory_entry::isofile::{ISOFile, ISOFileReader, SeekFrom};
pub use datetime::{DateTime, DateTimeAscii};
pub use error::ISOError;
pub use fileref::{FileRef, ISO9660Reader, MemoryReader};
pub use parse::both_endian::{both_endian16, both_endian32};
pub use parse::date_time::{date_time, date_time_ascii};
pub use parse::directory_entry::{DirectoryEntryHeader, FileFlags, directory_entry};
pub use parse::volume_descriptor::{CharacterEncoding, VolumeDescriptor, VolumeDescriptorTable, descriptor_table, identifier_to_string};

verus! {

use crate::directory_entry::spec_entry_name;
use crate::directory_entry::isodirectory::{spec_block_count, spec_map_identifier, FindResult,
    spec_find_from};
use crate::fileref::block_buffer;
use crate::parse::both_endian::le16_at;
use crate::parse::directory_entry::{spec_record_header, spec_record_id_bytes,
    spec_decode_identifier};
use crate::parse::volume_descriptor::{DescriptorClass, spec_descriptor_class, spec_boot_wf,
    spec_table_wf, spec_table_matches, spec_table_encoding};
use vstd::string::StrSliceExecFns;

/// Logical block size of an ISO 9660 volume. Other block sizes exist in the
/// standard but are not supported here; mounting rejects them.
pub const BLOCK_SIZE: u16 = 2048;

/// The bytes of block `lba` of an image.
pub open spec fn spec_block(img: Seq<u8>, lba: int) -> Seq<u8> {
    img.subrange(lba * 2048, lba * 2048 + 2048)
}

/// What scanning the volume descriptor set yields.
pub enum ScanResult {
    /// A terminator was reached with a Primary descriptor in hand: the
    /// block addresses of the Primary descriptor kept (the last seen) and
    /// of the first Supplementary descriptor, if any.
    Found { primary: int, supplementary: Option<int> },
    /// A descriptor failed the `"CD001"`/version-1 tag check.
    BadTag,
    /// A Boot, Primary or Supplementary descriptor whose text fields,
    /// timestamps or embedded root record do not decode.
    BadTable,
    /// A Primary or Supplementary descriptor declares a logical block size
    /// other than 2048.
    BadBlockSize,
    /// The terminator came without a Primary descriptor.
    NoPrimary,
    /// The image ended before a terminator: a short read.
    OffEnd,
}

impl ScanResult {
    /// The descriptor set itself is bad: every outcome except a successful
    /// scan and a scan that ran off the image's end.
    pub open spec fn is_malformed(self) -> bool {
        match self {
            ScanResult::Found { .. } => false,
            ScanResult::OffEnd => false,
            _ => true,
        }
    }
}

/// The descriptor scan, starting at block `lba` with the Primary and
/// Supplementary descriptors found so far.
pub open spec fn spec_scan(img: Seq<u8>, lba: int, primary: Option<int>, supp: Option<int>)
    -> ScanResult
    recommends
        0 <= lba,
    decreases img.len() - lba * 2048,
{
    if lba * 2048 + 2048 > img.len() {
        ScanResult::OffEnd
    } else {
        let blk = spec_block(img, lba);
        match spec_descriptor_class(blk) {
            DescriptorClass::BadMagic => ScanResult::BadTag,
            DescriptorClass::Boot => if spec_boot_wf(blk) {
                spec_scan(img, lba + 1, primary, supp)
            } else {
                ScanResult::BadTable
            },
            DescriptorClass::Primary => if !spec_table_wf(blk) {
                ScanResult::BadTable
            } else if le16_at(blk, 128) != 2048 {
                ScanResult::BadBlockSize
            } else {
                spec_scan(img, lba + 1, Some(lba), supp)
            },
            DescriptorClass::Supplementary => if !spec_table_wf(blk) {
                ScanResult::BadTable
            } else if le16_at(blk, 128) != 2048 {
                ScanResult::BadBlockSize
            } else {
                spec_scan(
                    img,
                    lba + 1,
                    primary,
                    if supp is None {
                        Some(lba)
                    } else {
                        supp
                    },
                )
            },
            DescriptorClass::Terminator => match primary {
                Some(p) => ScanResult::Found { primary: p, supplementary: supp },
                None => ScanResult::NoPrimary,
            },
            DescriptorClass::Unknown => spec_scan(img, lba + 1, primary, supp),
        }
    }
}

/// The root directory that the descriptor block at `lba` embeds corresponds
/// to directory `d` over image `img`: same record, the identifier decoded
/// and marker-mapped, reads going to the same image.
pub open spec fn spec_root_matches<T: ISO9660Reader>(
    d: ISODirectory<T>,
    img: Seq<u8>,
    lba: int,
) -> bool {
    let blk = spec_block(img, lba);
    &&& d.spec_header() == spec_record_header(blk, 156, spec_table_encoding(blk))
    &&& spec_decode_identifier(spec_record_id_bytes(blk, 156), spec_table_encoding(blk))
        matches Some(id) && d.spec_identifier() == spec_map_identifier(id)
    &&& d.image() == img
}

/// A mounted ISO 9660 filesystem: the shared byte-source handle, the root
/// directory of the Primary descriptor, the optional Joliet root of the
/// first Supplementary descriptor, and the Primary table itself.
pub struct ISO9660<T: ISO9660Reader> {
    _file: FileRef<T>,
    /// Root directory of the Primary volume descriptor.
    pub root: ISODirectory<T>,
    primary: VolumeDescriptorTable,
    joliet_root: Option<ISODirectory<T>>,
}

impl<T: ISO9660Reader> ISO9660<T> {
    /// The mounted image.
    pub closed spec fn image(&self) -> Seq<u8> {
        self._file.image()
    }

    /// Every root of the mount reads the one mounted image.
    pub closed spec fn wf(&self) -> bool {
        &&& self.root.image() == self._file.image()
        &&& match self.joliet_root {
            Some(j) => j.image() == self._file.image(),
            None => true,
        }
    }

    /// The Primary root directory, for contracts.
    pub closed spec fn spec_root(&self) -> ISODirectory<T> {
        self.root
    }

    /// The Joliet root directory, if a Supplementary descriptor was found.
    pub closed spec fn spec_joliet_root(&self) -> Option<ISODirectory<T>> {
        self.joliet_root
    }

    /// The decoded Primary descriptor, for contracts.
    pub closed spec fn spec_primary(&self) -> VolumeDescriptorTable {
        self.primary
    }

    /// Mount a filesystem: scan the volume descriptor set from block 16
    /// until its terminator. The Primary descriptor is mandatory; the first
    /// Supplementary descriptor, if any, is kept as the Joliet root. Any
    /// structural violation fails the mount: a bad tag with `InvalidFs`, a
    /// block size other than 2048 with `InvalidFs("Block size not 2048")`,
    /// a terminator without a Primary with
    /// `InvalidFs("No primary volume descriptor")`, a field that does not
    /// decode with that field's error. An error that is not the byte
    /// source's own (`Io`, `ReadSize`) is only ever returned for an image
    /// whose descriptor scan is malformed, and no partially-valid handle is
    /// ever returned.
    pub fn new(reader: T) -> (r: Result<ISO9660<T>, ISOError>)
        ensures
            match r {
                Ok(fs) => {
                    &&& fs.wf()
                    &&& fs.image() == reader.image()
                    &&& spec_scan(reader.image(), 16, None, None) matches ScanResult::Found {
                        primary,
                        supplementary,
                    } && {
                        &&& spec_table_wf(spec_block(reader.image(), primary))
                        &&& spec_table_matches(
                            spec_block(reader.image(), primary),
                            fs.spec_primary(),
                        )
                        &&& fs.spec_primary().logical_block_size == 2048
                        &&& spec_root_matches(fs.spec_root(), reader.image(), primary)
                        &&& match supplementary {
                            None => fs.spec_joliet_root() is None,
                            Some(s) => fs.spec_joliet_root() matches Some(j) && spec_root_matches(
                                j,
                                reader.image(),
                                s,
                            ),
                        }
                    }
                },
                Err(e) => {
                    let scan = spec_scan(reader.image(), 16, None, None);
                    let source_error = e matches ISOError::Io || e matches ISOError::ReadSize(
                        _,
                        _,
                    );
                    &&& !source_error ==> scan.is_malformed()
                    &&& (scan is BadTag && !source_error) ==> (e matches ISOError::InvalidFs(_))
                    &&& (scan is BadBlockSize && !source_error) ==> match e {
                        ISOError::InvalidFs(m) => m@ == "Block size not 2048"@,
                        _ => false,
                    }
                    &&& (scan is NoPrimary && !source_error) ==> match e {
                        ISOError::InvalidFs(m) => m@ == "No primary volume descriptor"@,
                        _ => false,
                    }
                    &&& match e {
                        ISOError::ReadSize(expected, _) => expected == 2048,
                        _ => true,
                    }
                },
            },
    {
        let ghost img = reader.image();
        let mut buf = block_buffer();
        let mut primary_table: Option<VolumeDescriptorTable> = None;
        let mut supp_table: Option<VolumeDescriptorTable> = None;
        let ghost mut primary_lba: Option<int> = None;
        let ghost mut supp_lba: Option<int> = None;
        let mut lba: u64 = 16;
        loop
            invariant
                16 <= lba,
                buf@.len() == 2048,
                img == reader.image(),
                spec_scan(img, 16, None, None) == spec_scan(
                    img,
                    lba as int,
                    primary_lba,
                    supp_lba,
                ),
                match primary_lba {
                    Some(p) => {
                        &&& primary_table matches Some(t)
                        &&& 16 <= p < lba
                        &&& p * 2048 + 2048 <= img.len()
                        &&& spec_table_wf(spec_block(img, p))
                        &&& spec_table_matches(spec_block(img, p), t)
                        &&& t.logical_block_size == 2048
                    },
                    None => primary_table is None,
                },
                match supp_lba {
                    Some(sp) => {
                        &&& supp_table matches Some(t)
                        &&& 16 <= sp < lba
                        &&& sp * 2048 + 2048 <= img.len()
                        &&& spec_table_wf(spec_block(img, sp))
                        &&& spec_table_matches(spec_block(img, sp), t)
                        &&& t.logical_block_size == 2048
                    },
                    None => supp_table is None,
                },
            ensures
                img == reader.image(),
                match primary_lba {
                    Some(p) => {
                        &&& primary_table matches Some(t)
                        &&& p * 2048 + 2048 <= img.len()
                        &&& spec_table_wf(spec_block(img, p))
                        &&& spec_table_matches(spec_block(img, p), t)
                        &&& t.logical_block_size == 2048
                        &&& spec_scan(img, 16, None, None) == (ScanResult::Found {
                            primary: p,
                            supplementary: supp_lba,
                        })
                    },
                    None => primary_table is None && spec_scan(img, 16, None, None)
                        is NoPrimary,
                },
                match supp_lba {
                    Some(sp) => {
                        &&& supp_table matches Some(t)
                        &&& sp * 2048 + 2048 <= img.len()
                        &&& spec_table_wf(spec_block(img, sp))
                        &&& spec_table_matches(spec_block(img, sp), t)
                    },
                    None => supp_table is None,
                },
            decreases img.len() - lba as int * 2048,
        {
            let count = match reader.read_at(&mut buf, lba) {
                Ok(c) => c,
                Err(e) => {
                    return Err(e);
                },
            };
            if count != 2048 {
                return Err(ISOError::ReadSize(2048, count));
            }
            proof {
                assert(buf@.subrange(0, 2048) =~= buf@);
                assert(buf@ == spec_block(img, lba as int));
            }
            let descriptor = match VolumeDescriptor::parse(buf.as_slice()) {
                Ok(d) => d,
                Err(e) => {
                    proof {
                        let sc = spec_scan(img, lba as int, primary_lba, supp_lba);
                        assert(sc is BadTag || sc is BadTable);
                        assert(sc is BadTag ==> e matches ISOError::InvalidFs(_));
                    }
                    return Err(e);
                },
            };
            match descriptor {
                Some(VolumeDescriptor::Primary(table)) => {
                    if table.logical_block_size != 2048 {
                        proof {
                            assert(spec_scan(img, lba as int, primary_lba, supp_lba)
                                is BadBlockSize);
                        }
                        return Err(ISOError::InvalidFs("Block size not 2048"));
                    }
                    primary_table = Some(table);
                    proof {
                        primary_lba = Some(lba as int);
                    }
                },
                Some(VolumeDescriptor::Supplementary(table)) => {
                    if table.logical_block_size != 2048 {
                        proof {
                            assert(spec_scan(img, lba as int, primary_lba, supp_lba)
                                is BadBlockSize);
                        }
                        return Err(ISOError::InvalidFs("Block size not 2048"));
                    }
                    if supp_table.is_none() {
                        supp_table = Some(table);
                        proof {
                            supp_lba = Some(lba as int);
                        }
                    }
                },
                Some(VolumeDescriptor::VolumeDescriptorSetTerminator) => {
                    break;
                },
                _ => {},
            }
            lba = lba + 1;
        }
        let primary = match primary_table {
            Some(t) => t,
            None => {
                return Err(ISOError::InvalidFs("No primary volume descriptor"));
            },
        };
        let file = FileRef::new(reader);
        let root = ISODirectory::new(
            primary.root_directory_entry,
            primary.root_directory_entry_identifier.clone(),
            file.clone(),
        );
        let joliet_root = match &supp_table {
            Some(t) => Some(
                ISODirectory::new(
                    t.root_directory_entry,
                    t.root_directory_entry_identifier.clone(),
                    file.clone(),
                ),
            ),
            None => None,
        };
        Ok(ISO9660 { _file: file, root, primary, joliet_root })
    }

    /// The fixed logical block size of every supported volume.
    pub fn block_size(&self) -> (r: u16)
        ensures
            r == 2048,
    {
        2048
    }

    /// Resolve a slash-separated path to an entry. Empty segments are
    /// discarded, so redundant slashes are tolerated. Where a Joliet root
    /// exists the whole path is resolved against it first; the Primary root
    /// is consulted only where Joliet resolution finds nothing. A missing
    /// path and a path through a file are `Ok(None)`, never errors; a path
    /// with no segments at all names the chosen root itself and succeeds
    /// without any read.
    pub fn open(&self, path: &str) -> (r: Result<Option<DirectoryEntry<T>>, ISOError>)
        requires
            self.wf(),
        ensures
            match r {
                Ok(or) => {
                    let res = spec_open_result(
                        self.image(),
                        self.spec_root().spec_header(),
                        self.spec_root().spec_identifier(),
                        match self.spec_joliet_root() {
                            None => None,
                            Some(j) => Some((j.spec_header(), j.spec_identifier())),
                        },
                        spec_segments_from(path@, 0),
                    );
                    match or {
                        Some(e) => res matches ResolveResult::Entry { header, name }
                            && spec_resolved_entry(e, header, name, self.image()),
                        None => res is NotFound,
                    }
                },
                Err(_) => true,
            },
            spec_segments_from(path@, 0).len() == 0 ==> (r matches Ok(Some(e)) && e is Directory),
            (r matches Err(e) && !(e matches ISOError::Io || e matches ISOError::ReadSize(
                _,
                _,
            ))) ==> spec_open_result(
                self.image(),
                self.spec_root().spec_header(),
                self.spec_root().spec_identifier(),
                match self.spec_joliet_root() {
                    None => None,
                    Some(j) => Some((j.spec_header(), j.spec_identifier())),
                },
                spec_segments_from(path@, 0),
            ) is Malformed,
    {
        let segments = split_segments(path);
        proof {
            assert(views_of(segments@).len() == segments@.len());
        }
        match &self.joliet_root {
            Some(j) => {
                match walk(j, &segments) {
                    Err(e) => Err(e),
                    Ok(Some(entry)) => Ok(Some(entry)),
                    Ok(None) => walk(&self.root, &segments),
                }
            },
            None => walk(&self.root, &segments),
        }
    }

    /// The Primary descriptor's volume set identifier.
    pub fn volume_set_identifier(&self) -> (r: &str)
        ensures
            r@ == self.spec_primary().volume_set_identifier@,
    {
        self.primary.volume_set_identifier.as_str()
    }

    /// The Primary descriptor's publisher identifier.
    pub fn publisher_identifier(&self) -> (r: &str)
        ensures
            r@ == self.spec_primary().publisher_identifier@,
    {
        self.primary.publisher_identifier.as_str()
    }

    /// The Primary descriptor's data preparer identifier.
    pub fn data_preparer_identifier(&self) -> (r: &str)
        ensures
            r@ == self.spec_primary().data_preparer_identifier@,
    {
        self.primary.data_preparer_identifier.as_str()
    }

    /// The Primary descriptor's application identifier.
    pub fn application_identifier(&self) -> (r: &str)
        ensures
            r@ == self.spec_primary().application_identifier@,
    {
        self.primary.application_identifier.as_str()
    }

    /// The Primary descriptor's copyright file identifier.
    pub fn copyright_file_identifier(&self) -> (r: &str)
        ensures
            r@ == self.spec_primary().copyright_file_identifier@,
    {
        self.primary.copyright_file_identifier.as_str()
    }

    /// The Primary descriptor's abstract file identifier.
    pub fn abstract_file_identifier(&self) -> (r: &str)
        ensures
            r@ == self.spec_primary().abstract_file_identifier@,
    {
        self.primary.abstract_file_identifier.as_str()
    }

    /// The Primary descriptor's bibliographic file identifier.
    pub fn bibliographic_file_identifier(&self) -> (r: &str)
        ensures
            r@ == self.spec_primary().bibliographic_file_identifier@,
    {
        self.primary.bibliographic_file_identifier.as_str()
    }
}

/// First index at or after `i` holding `/`, or the end of `p`.
pub open spec fn spec_seg_end(p: Seq<char>, i: int) -> int
    recommends
        0 <= i <= p.len(),
    decreases p.len() - i,
{
    if i < 0 || i >= p.len() {
        p.len() as int
    } else if p[i] == '/' {
        i
    } else {
        spec_seg_end(p, i + 1)
    }
}

/// `spec_seg_end` names the first slash at or after `i`: no slash stands
/// before it, and it points at a slash unless it is the end.
pub proof fn lemma_seg_end(p: Seq<char>, i: int)
    requires
        0 <= i <= p.len(),
    ensures
        i <= spec_seg_end(p, i) <= p.len(),
        forall|j: int| i <= j < spec_seg_end(p, i) ==> p[j] != '/',
        spec_seg_end(p, i) < p.len() ==> p[spec_seg_end(p, i)] == '/',
    decreases p.len() - i,
{
    if i < p.len() && p[i] != '/' {
        lemma_seg_end(p, i + 1);
    }
}

/// The non-empty segments of a slash-separated path, from index `i` on.
/// Leading, trailing and repeated slashes contribute nothing.
pub open spec fn spec_segments_from(p: Seq<char>, i: int) -> Seq<Seq<char>>
    recommends
        0 <= i <= p.len(),
    decreases p.len() - i,
        via spec_segments_from_decreases
{
    if i < 0 || i >= p.len() {
        seq![]
    } else if p[i] == '/' {
        spec_segments_from(p, i + 1)
    } else {
        seq![p.subrange(i, spec_seg_end(p, i))] + spec_segments_from(p, spec_seg_end(p, i))
    }
}

#[via_fn]
proof fn spec_segments_from_decreases(p: Seq<char>, i: int) {
    if 0 <= i && i < p.len() && p[i] != '/' {
        lemma_seg_end(p, i);
        assert(spec_seg_end(p, i) > i) by {
            if spec_seg_end(p, i) == i {
                assert(p[i] == '/');
            }
        }
    }
}

/// The views of a sequence of strings.
pub open spec fn views_of(v: Seq<String>) -> Seq<Seq<char>> {
    Seq::new(v.len(), |i: int| v[i]@)
}

/// Split a path on `/`, discarding empty segments.
fn split_segments(path: &str) -> (v: Vec<String>)
    ensures
        views_of(v@) == spec_segments_from(path@, 0),
{
    let n = path.unicode_len();
    let mut v: Vec<String> = Vec::new();
    let mut i: usize = 0;
    proof {
        assert(views_of(v@) =~= Seq::<Seq<char>>::empty());
    }
    while i < n
        invariant
            i <= n == path@.len(),
            spec_segments_from(path@, 0) == views_of(v@) + spec_segments_from(path@, i as int),
        decreases n - i,
    {
        let c = path.get_char(i);
        if c == '/' {
            i = i + 1;
        } else {
            let ghost p = path@;
            let mut j: usize = i + 1;
            while j < n && path.get_char(j) != '/'
                invariant
                    i < j <= n,
                    n == path@.len(),
                    forall|k: int| i < k < j ==> path@[k] != '/',
                decreases n - j,
            {
                j = j + 1;
            }
            proof {
                lemma_seg_end(p, i as int);
                let se = spec_seg_end(p, i as int);
                assert(se == j as int) by {
                    if se < j as int {
                        if se == i as int {
                            assert(p[i as int] == '/');
                        } else {
                            assert(p[se] != '/');
                        }
                    }
                    if se > j as int {
                        assert(p[j as int] != '/');
                    }
                }
            }
            let seg = path.substring_char(i, j);
            let ghost before = v@;
            v.push(seg.to_owned());
            proof {
                assert(views_of(v@) =~= views_of(before) + seq![p.subrange(i as int, j as int)]);
                assert(views_of(before) + (seq![p.subrange(i as int, j as int)]
                    + spec_segments_from(p, j as int)) =~= (views_of(before) + seq![
                    p.subrange(i as int, j as int),
                ]) + spec_segments_from(p, j as int));
            }
            i = j;
        }
    }
    proof {
        assert(views_of(v@) + spec_segments_from(path@, n as int) =~= views_of(v@));
    }
    v
}

/// What resolving a path against a starting directory yields.
pub enum ResolveResult {
    /// The entry the final segment names: its record and display name.
    Entry { header: DirectoryEntryHeader, name: Seq<char> },
    /// Some segment is missing, or a non-final segment names a file.
    NotFound,
    /// A directory listing on the way is malformed.
    Malformed,
}

/// Walk `segs` from an entry with record `h` and display name `name`:
/// zero segments name the entry itself; otherwise the entry must be a
/// directory, the first segment is looked up in it case-insensitively, and
/// the rest of the path continues from what was found.
pub open spec fn spec_resolve(
    img: Seq<u8>,
    h: DirectoryEntryHeader,
    name: Seq<char>,
    segs: Seq<Seq<char>>,
) -> ResolveResult
    decreases segs.len(),
{
    if segs.len() == 0 {
        ResolveResult::Entry { header: h, name }
    } else if !h.file_flags.spec_directory() {
        ResolveResult::NotFound
    } else {
        match spec_find_from(
            img,
            h.extent_loc as int,
            spec_block_count(h.extent_length as int),
            h.character_encoding,
            segs[0],
            0,
            0,
        ) {
            FindResult::Malformed => ResolveResult::Malformed,
            FindResult::NotFound => ResolveResult::NotFound,
            FindResult::Found { header, id } => spec_resolve(
                img,
                header,
                spec_entry_name(header, id),
                segs.drop_first(),
            ),
        }
    }
}

/// Path resolution of a mount: the whole path against the Joliet root where
/// one exists, the Primary root where there is none or Joliet resolution
/// finds nothing.
pub open spec fn spec_open_result(
    img: Seq<u8>,
    primary_root: DirectoryEntryHeader,
    primary_name: Seq<char>,
    joliet_root: Option<(DirectoryEntryHeader, Seq<char>)>,
    segs: Seq<Seq<char>>,
) -> ResolveResult {
    match joliet_root {
        None => spec_resolve(img, primary_root, primary_name, segs),
        Some(j) => match spec_resolve(img, j.0, j.1, segs) {
            ResolveResult::NotFound => spec_resolve(img, primary_root, primary_name, segs),
            other => other,
        },
    }
}

/// `e` is an entry with record `header` and display name `name` over `img`.
/// A file entry is only ever produced for a record without the `Directory`
/// flag; a directory entry is also what a whole path of zero segments
/// resolves to, whatever its flag says.
pub open spec fn spec_resolved_entry<T: ISO9660Reader>(
    e: DirectoryEntry<T>,
    header: DirectoryEntryHeader,
    name: Seq<char>,
    img: Seq<u8>,
) -> bool {
    match e {
        DirectoryEntry::Directory(d) => d.spec_header() == header && d.spec_identifier() == name
            && d.image() == img,
        DirectoryEntry::File(f) => !header.file_flags.spec_directory() && f.spec_header() == header
            && f.spec_identifier() == name && f.image() == img,
    }
}

/// The record of an entry.
pub open spec fn spec_entry_header<T: ISO9660Reader>(e: DirectoryEntry<T>) -> DirectoryEntryHeader {
    match e {
        DirectoryEntry::Directory(d) => d.spec_header(),
        DirectoryEntry::File(f) => f.spec_header(),
    }
}

/// The display name of an entry.
pub open spec fn spec_entry_display_name<T: ISO9660Reader>(e: DirectoryEntry<T>) -> Seq<char> {
    match e {
        DirectoryEntry::Directory(d) => d.spec_identifier(),
        DirectoryEntry::File(f) => f.spec_identifier(),
    }
}

/// Resolve `segments` against the directory `root`.
fn walk<T: ISO9660Reader>(root: &ISODirectory<T>, segments: &Vec<String>) -> (r: Result<
    Option<DirectoryEntry<T>>,
    ISOError,
>)
    ensures
        match r {
            Ok(or) => {
                let res = spec_resolve(
                    root.image(),
                    root.spec_header(),
                    root.spec_identifier(),
                    views_of(segments@),
                );
                match or {
                    Some(e) => res matches ResolveResult::Entry { header, name }
                        && spec_resolved_entry(e, header, name, root.image()),
                    None => res is NotFound,
                }
            },
            Err(_) => true,
        },
        segments@.len() == 0 ==> (r matches Ok(Some(e)) && e is Directory),
        (r matches Err(e) && !(e matches ISOError::Io || e matches ISOError::ReadSize(
            _,
            _,
        ))) ==> spec_resolve(
            root.image(),
            root.spec_header(),
            root.spec_identifier(),
            views_of(segments@),
        ) is Malformed,
{
    let ghost img = root.image();
    let ghost all = views_of(segments@);
    let total = segments.len();
    let mut entry: DirectoryEntry<T> = DirectoryEntry::Directory(root.clone());
    let mut k: usize = 0;
    proof {
        assert(all.skip(0) =~= all);
    }
    while k < total
        invariant
            k <= total == segments@.len(),
            all == views_of(segments@),
            entry.image() == img,
            img == root.image(),
            spec_resolve(img, root.spec_header(), root.spec_identifier(), all) == spec_resolve(
                img,
                spec_entry_header(entry),
                spec_entry_display_name(entry),
                all.skip(k as int),
            ),
            entry matches DirectoryEntry::File(_) ==> !spec_entry_header(
                entry,
            ).file_flags.spec_directory(),
            total == 0 ==> entry matches DirectoryEntry::Directory(_),
        decreases total - k,
    {
        let hdr_is_dir = entry.header().file_flags.directory();
        if !hdr_is_dir {
            return Ok(None);
        }
        let dir = match entry {
            DirectoryEntry::Directory(d) => d,
            DirectoryEntry::File(_) => {
                // A file entry never carries the Directory flag, so this arm
                // cannot be reached once the flag test above has passed.
                proof {
                    assert(false);
                }
                return Ok(None);
            },
        };
        proof {
            assert(all.skip(k as int)[0] == all[k as int]);
            assert(all[k as int] == segments@[k as int]@);
        }
        match dir.find(segments[k].as_str()) {
            Err(e) => {
                return Err(e);
            },
            Ok(None) => {
                return Ok(None);
            },
            Ok(Some(e2)) => {
                proof {
                    assert(all.skip(k as int).drop_first() =~= all.skip(k as int + 1));
                }
                entry = e2;
            },
        }
        k = k + 1;
    }
    proof {
        assert(all.skip(total as int) =~= Seq::<Seq<char>>::empty());
    }
    Ok(Some(entry))
}


proof fn lemma_seg_end_shift(p: Seq<char>, i: int, j: int)
    requires
        0 <= i <= j <= p.len(),
    ensures
        spec_seg_end(p, j) - i == spec_seg_end(p.skip(i), j - i),
    decreases p.len() - j,
{
    if j >= p.len() {
        assert(p.skip(i).len() == p.len() - i);
    } else {
        assert(p.skip(i)[j - i] == p[j]);
        if p[j] != '/' {
            lemma_seg_end_shift(p, i, j + 1);
        }
    }
}

proof fn lemma_segments_shift(p: Seq<char>, i: int, j: int)
    requires
        0 <= i <= j <= p.len(),
    ensures
        spec_segments_from(p, j) == spec_segments_from(p.skip(i), j - i),
    decreases p.len() - j,
{
    let q = p.skip(i);
    if j >= p.len() {
    } else if p[j] == '/' {
        assert(q[j - i] == p[j]);
        lemma_segments_shift(p, i, j + 1);
    } else {
        assert(q[j - i] == p[j]);
        lemma_seg_end_shift(p, i, j);
        lemma_seg_end(p, j);
        let se = spec_seg_end(p, j);
        assert(se > j) by {
            if se == j {
                assert(p[j] == '/');
            }
        }
        assert(q.subrange(j - i, se - i) =~= p.subrange(j, se));
        lemma_segments_shift(p, i, se);
    }
}

/// Leading slashes are redundant: `/p` has the segments of `p`, so paths
/// with and without them resolve alike.
pub proof fn lemma_segments_leading_slash(p: Seq<char>)
    ensures
        spec_segments_from(seq!['/'] + p, 0) == spec_segments_from(p, 0),
{
    let q = seq!['/'] + p;
    assert(q[0] == '/');
    lemma_segments_shift(q, 1, 1);
    assert(q.skip(1) =~= p);
}

proof fn lemma_seg_end_extend(p: Seq<char>, i: int)
    requires
        0 <= i <= p.len(),
    ensures
        spec_seg_end(p + seq!['/'], i) == spec_seg_end(p, i),
    decreases p.len() - i,
{
    let q = p + seq!['/'];
    if i >= p.len() {
        assert(q[i] == '/');
    } else {
        assert(q[i] == p[i]);
        if p[i] != '/' {
            lemma_seg_end_extend(p, i + 1);
        }
    }
}

proof fn lemma_segments_trailing_slash_from(p: Seq<char>, i: int)
    requires
        0 <= i <= p.len(),
    ensures
        spec_segments_from(p + seq!['/'], i) == spec_segments_from(p, i),
    decreases p.len() - i,
{
    reveal_with_fuel(spec_segments_from, 3);
    let q = p + seq!['/'];
    if i >= p.len() {
        assert(q[i] == '/');
    } else if p[i] == '/' {
        assert(q[i] == p[i]);
        lemma_segments_trailing_slash_from(p, i + 1);
    } else {
        assert(q[i] == p[i]);
        lemma_seg_end_extend(p, i);
        lemma_seg_end(p, i);
        let se = spec_seg_end(p, i);
        assert(se > i) by {
            if se == i {
                assert(p[i] == '/');
            }
        }
        assert(q.subrange(i, se) =~= p.subrange(i, se));
        lemma_segments_trailing_slash_from(p, se);
        assert(spec_segments_from(p, i) == seq![p.subrange(i, se)] + spec_segments_from(p, se));
        assert(spec_segments_from(q, i) == seq![q.subrange(i, se)] + spec_segments_from(q, se));
    }
}

/// A trailing slash is redundant: `p/` has the segments of `p`, so paths
/// with and without one resolve alike.
pub proof fn lemma_segments_trailing_slash(p: Seq<char>)
    ensures
        spec_segments_from(p + seq!['/'], 0) == spec_segments_from(p, 0),
{
    lemma_segments_trailing_slash_from(p, 0);
}

proof fn lemma_segments_double_slash_from(a: Seq<char>, b: Seq<char>, i: int)
    requires
        0 <= i <= a.len(),
    ensures
        spec_segments_from(a + seq!['/'] + b, i) == spec_segments_from(
            a + seq!['/', '/'] + b,
            i,
        ),
    decreases a.len() - i,
{
    reveal_with_fuel(spec_segments_from, 3);
    let q1 = a + seq!['/'] + b;
    let q2 = a + seq!['/', '/'] + b;
    assert(q1.len() == a.len() + 1 + b.len());
    assert(q2.len() == a.len() + 2 + b.len());
    if i == a.len() {
        assert(q1[i] == '/');
        assert(q2[i] == '/');
        assert(q2[i + 1] == '/');
        lemma_segments_shift(q1, i + 1, i + 1);
        lemma_segments_shift(q2, i + 2, i + 2);
        assert(q1.skip(i + 1) =~= b);
        assert(q2.skip(i + 2) =~= b);
    } else {
        assert(q1[i] == a[i] && q2[i] == a[i]);
        if a[i] == '/' {
            lemma_segments_double_slash_from(a, b, i + 1);
        } else {
            lemma_seg_end(q1, i);
            lemma_seg_end(q2, i);
            let s1 = spec_seg_end(q1, i);
            let s2 = spec_seg_end(q2, i);
            assert(s1 <= a.len()) by {
                if s1 > a.len() {
                    assert(q1[a.len() as int] != '/');
                }
            }
            assert(s2 <= a.len()) by {
                if s2 > a.len() {
                    assert(q2[a.len() as int] != '/');
                }
            }
            assert(forall|k: int| 0 <= k < a.len() ==> q1[k] == a[k] && q2[k] == a[k]);
            assert(s1 == s2) by {
                if s1 < s2 {
                    assert(q2[s1] != '/');
                    assert(q1[s1] == '/');
                }
                if s2 < s1 {
                    assert(q1[s2] != '/');
                    assert(q2[s2] == '/');
                }
            }
            assert(s1 > i) by {
                if s1 == i {
                    assert(q1[i] == '/');
                }
            }
            assert(q1.subrange(i, s1) =~= q2.subrange(i, s1));
            lemma_segments_double_slash_from(a, b, s1);
            assert(spec_segments_from(q1, i) == seq![q1.subrange(i, s1)] + spec_segments_from(
                q1,
                s1,
            ));
            assert(spec_segments_from(q2, i) == seq![q2.subrange(i, s1)] + spec_segments_from(
                q2,
                s1,
            ));
        }
    }
}

/// A doubled slash separates the same segments as a single one, so paths
/// with repeated slashes resolve like their single-slash forms.
pub proof fn lemma_segments_double_slash(a: Seq<char>, b: Seq<char>)
    ensures
        spec_segments_from(a + seq!['/'] + b, 0) == spec_segments_from(a + seq!['/', '/'] + b, 0),
{
    lemma_segments_double_slash_from(a, b, 0);
}
} // verus!
