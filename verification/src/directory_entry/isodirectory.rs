//! Directories: lazy, block-buffered enumeration of directory records and
//! case-insensitive name lookup.

use vstd::prelude::*;

verus! {

use crate::datetime::DateTime;
use crate::directory_entry::{DirectoryEntry, spec_entry_matches, spec_entry_name, spec_entry_ok};
use crate::error::ISOError;
use crate::fileref::{FileRef, ISO9660Reader, block_buffer};
use crate::parse::directory_entry::{
    DirectoryEntryHeader,
    spec_record_valid,
    spec_record_header,
    spec_record_id_bytes,
    spec_decode_identifier,
};
use crate::parse::volume_descriptor::CharacterEncoding;
use crate::text::{spec_str_eq_ignore_case, spec_rfind};
use crate::directory_entry::isofile::spec_split_version;
use vstd::string::StrSliceExecFns;

/// Display identifier of a raw directory identifier: the raw self marker
/// (the single character 0) shows as `.`, the parent marker (character 1)
/// as `..`; everything else is kept as decoded.
pub open spec fn spec_map_identifier(id: Seq<char>) -> Seq<char> {
    if id.len() == 1 && id[0] == '\u{0}' {
        seq!['.']
    } else if id.len() == 1 && id[0] == '\u{1}' {
        seq!['.', '.']
    } else {
        id
    }
}

/// Blocks needed for an extent of `len` bytes: `ceil(len / 2048)`.
pub open spec fn spec_block_count(len: int) -> int {
    (len + 2047) / 2048
}

/// One lookup step over a directory's records, starting in block `bn` of
/// the extent at byte `pos`: skip block remainders that cannot hold a
/// record (fewer than 34 bytes, or a zero padding byte) by moving to the
/// next block, then read one record.
pub enum DirStep {
    /// A record: its decoded header, its decoded identifier characters, and
    /// the extent byte offset at which the next lookup starts.
    Entry { header: DirectoryEntryHeader, id: Seq<char>, next: int },
    /// The block count is exhausted: clean end of the directory.
    End,
    /// A structural violation, an identifier that does not decode, or a
    /// block beyond the end of the image: fatal for the whole listing.
    Malformed,
}

/// The step function of directory iteration, over the mounted image.
/// `base` is the extent's first block, `bc` its block count.
pub open spec fn spec_dir_step(
    img: Seq<u8>,
    base: int,
    bc: int,
    enc: CharacterEncoding,
    bn: int,
    pos: int,
) -> DirStep
    recommends
        0 <= pos <= 2048,
    decreases bc - bn,
{
    if bn >= bc {
        DirStep::End
    } else if (base + bn) * 2048 + 2048 > img.len() {
        DirStep::Malformed
    } else {
        let blk = img.subrange((base + bn) * 2048, (base + bn) * 2048 + 2048);
        if pos >= 2015 || blk[pos] == 0 {
            spec_dir_step(img, base, bc, enc, bn + 1, 0)
        } else if !(spec_record_valid(blk, pos) && spec_decode_identifier(
            spec_record_id_bytes(blk, pos),
            enc,
        ) is Some && spec_entry_ok(
            spec_record_header(blk, pos, enc),
            spec_decode_identifier(spec_record_id_bytes(blk, pos), enc).unwrap(),
        )) {
            DirStep::Malformed
        } else {
            DirStep::Entry {
                header: spec_record_header(blk, pos, enc),
                id: spec_decode_identifier(spec_record_id_bytes(blk, pos), enc).unwrap(),
                next: bn * 2048 + pos + blk[pos],
            }
        }
    }
}

/// What a name lookup over a directory yields.
pub enum FindResult {
    /// The first record whose entry name matches, with its decoded
    /// identifier.
    Found { header: DirectoryEntryHeader, id: Seq<char> },
    /// No record matches: a normal outcome, not an error.
    NotFound,
    /// The listing is malformed before any match.
    Malformed,
}

/// The first entry from `(bn, pos)` on whose name equals `name` ASCII
/// case-insensitively, entries flagged as associated files skipped.
pub open spec fn spec_find_from(
    img: Seq<u8>,
    base: int,
    bc: int,
    enc: CharacterEncoding,
    name: Seq<char>,
    bn: int,
    pos: int,
) -> FindResult
    recommends
        0 <= pos <= 2048,
    decreases bc - bn, 2048 - pos,
{
    if bn >= bc {
        FindResult::NotFound
    } else if (base + bn) * 2048 + 2048 > img.len() {
        FindResult::Malformed
    } else {
        let blk = img.subrange((base + bn) * 2048, (base + bn) * 2048 + 2048);
        if pos >= 2015 || blk[pos] == 0 {
            spec_find_from(img, base, bc, enc, name, bn + 1, 0)
        } else if !(spec_record_valid(blk, pos) && spec_decode_identifier(
            spec_record_id_bytes(blk, pos),
            enc,
        ) is Some && spec_entry_ok(
            spec_record_header(blk, pos, enc),
            spec_decode_identifier(spec_record_id_bytes(blk, pos), enc).unwrap(),
        )) {
            FindResult::Malformed
        } else {
            let h = spec_record_header(blk, pos, enc);
            let id = spec_decode_identifier(spec_record_id_bytes(blk, pos), enc).unwrap();
            if !h.file_flags.spec_associated_file() && spec_str_eq_ignore_case(
                spec_entry_name(h, id),
                name,
            ) {
                FindResult::Found { header: h, id }
            } else {
                spec_find_from(img, base, bc, enc, name, bn, pos + blk[pos])
            }
        }
    }
}

/// One lookup step agrees with the find recursion: a lookup at `(bn, pos)`
/// either ends the search, fails, or yields an entry that is matched
/// against the name and, where it does not match, hands the search on at
/// the step's `next` offset.
pub proof fn lemma_find_step(
    img: Seq<u8>,
    base: int,
    bc: int,
    enc: CharacterEncoding,
    name: Seq<char>,
    bn: int,
    pos: int,
)
    requires
        0 <= pos <= 2048,
        0 <= bn,
        0 <= base,
    ensures
        spec_find_from(img, base, bc, enc, name, bn, pos) == (match spec_dir_step(
            img,
            base,
            bc,
            enc,
            bn,
            pos,
        ) {
            DirStep::End => FindResult::NotFound,
            DirStep::Malformed => FindResult::Malformed,
            DirStep::Entry { header, id, next } => {
                if !header.file_flags.spec_associated_file() && spec_str_eq_ignore_case(
                    spec_entry_name(header, id),
                    name,
                ) {
                    FindResult::Found { header, id }
                } else {
                    spec_find_from(img, base, bc, enc, name, next / 2048, next % 2048)
                }
            },
        }),
    decreases bc - bn,
{
    if bn >= bc {
    } else if (base + bn) * 2048 + 2048 > img.len() {
    } else {
        let blk = img.subrange((base + bn) * 2048, (base + bn) * 2048 + 2048);
        if pos >= 2015 || blk[pos] == 0 {
            lemma_find_step(img, base, bc, enc, name, bn + 1, 0);
        } else if !(spec_record_valid(blk, pos) && spec_decode_identifier(
            spec_record_id_bytes(blk, pos),
            enc,
        ) is Some && spec_entry_ok(
            spec_record_header(blk, pos, enc),
            spec_decode_identifier(spec_record_id_bytes(blk, pos), enc).unwrap(),
        )) {
        } else {
            let h = spec_record_header(blk, pos, enc);
            let id = spec_decode_identifier(spec_record_id_bytes(blk, pos), enc).unwrap();
            if !h.file_flags.spec_associated_file() && spec_str_eq_ignore_case(
                spec_entry_name(h, id),
                name,
            ) {
            } else {
                let next = bn * 2048 + pos + blk[pos];
                let len = blk[pos] as int;
                assert(34 <= len && pos + len <= 2048);
                if pos + len < 2048 {
                    assert(next == bn * 2048 + (pos + len));
                    lemma_offset_split(bn, pos + len);
                    assert(spec_find_from(img, base, bc, enc, name, bn, pos + len)
                        == spec_find_from(img, base, bc, enc, name, next / 2048, next % 2048));
                } else {
                    assert(pos + len == 2048);
                    assert(next == (bn + 1) * 2048);
                    lemma_offset_split(bn + 1, 0);
                    assert(spec_find_from(img, base, bc, enc, name, bn, 2048) == spec_find_from(
                        img,
                        base,
                        bc,
                        enc,
                        name,
                        bn + 1,
                        0,
                    ));
                }
            }
        }
    }
}

/// Splitting an extent byte offset `bn * 2048 + pos` back into block and
/// in-block parts recovers `bn` and `pos`.
pub proof fn lemma_offset_split(bn: int, pos: int)
    requires
        0 <= bn,
        0 <= pos < 2048,
    ensures
        (bn * 2048 + pos) / 2048 == bn,
        (bn * 2048 + pos) % 2048 == pos,
{
    vstd::arithmetic::div_mod::lemma_fundamental_div_mod_converse(bn * 2048 + pos, 2048, bn, pos);
}

/// A subdirectory of the filesystem: its directory record, its display
/// identifier, and the shared reader handle.
pub struct ISODirectory<T: ISO9660Reader> {
    /// The directory's own record.
    pub header: DirectoryEntryHeader,
    /// Display identifier: raw marker 0 shows as `.`, marker 1 as `..`.
    pub identifier: String,
    /// Shared handle to the mounted byte source.
    pub file: FileRef<T>,
}

impl<T: ISO9660Reader> ISODirectory<T> {
    /// The image this directory was mounted from.
    pub open spec fn image(&self) -> Seq<u8> {
        self.file.image()
    }

    /// The directory's record, for contracts.
    pub open spec fn spec_header(&self) -> DirectoryEntryHeader {
        self.header
    }

    /// The display identifier's characters, for contracts.
    pub open spec fn spec_identifier(&self) -> Seq<char> {
        self.identifier@
    }

    /// The extent's first block, as an integer.
    pub open spec fn base(&self) -> int {
        self.spec_header().extent_loc as int
    }

    /// The extent's block count, as an integer.
    pub open spec fn spec_block_count_int(&self) -> int {
        spec_block_count(self.spec_header().extent_length as int)
    }

    /// The encoding of this directory's identifiers.
    pub open spec fn enc(&self) -> CharacterEncoding {
        self.spec_header().character_encoding
    }

    /// A buffered block of this directory's extent agrees with the image:
    /// `bn` names a block of the extent that lies inside the image and
    /// `buf` holds exactly its bytes.
    pub open spec fn spec_buf_ok(&self, bn: Option<u64>, buf: Seq<u8>) -> bool {
        match bn {
            Some(b) => {
                &&& b < self.spec_block_count_int()
                &&& (self.base() + b) * 2048 + 2048 <= self.image().len()
                &&& buf == self.image().subrange(
                    (self.base() + b) * 2048,
                    (self.base() + b) * 2048 + 2048,
                )
            },
            None => true,
        }
    }

    /// Wrap a record as a directory, mapping the raw self and parent
    /// markers to `.` and `..`.
    pub(crate) fn new(header: DirectoryEntryHeader, identifier: String, file: FileRef<T>) -> (r:
        ISODirectory<T>)
        ensures
            r.spec_header() == header,
            r.spec_identifier() == spec_map_identifier(identifier@),
            r.image() == file.image(),
    {
        let id = identifier.as_str();
        let n = id.unicode_len();
        let mapped: String = if n == 1 && id.get_char(0) == '\u{0}' {
            let dot = ".";
            proof {
                reveal_strlit(".");
                assert(dot@ =~= seq!['.']);
            }
            dot.to_owned()
        } else if n == 1 && id.get_char(0) == '\u{1}' {
            let dotdot = "..";
            proof {
                reveal_strlit("..");
                assert(dotdot@ =~= seq!['.', '.']);
            }
            dotdot.to_owned()
        } else {
            proof {
                assert(identifier@ =~= spec_map_identifier(identifier@));
            }
            identifier
        };
        ISODirectory { header, identifier: mapped, file }
    }

    /// Blocks of the directory's extent: `ceil(extent_length / 2048)`.
    pub fn block_count(&self) -> (r: u32)
        ensures
            r as int == self.spec_block_count_int(),
    {
        let len = self.header.extent_length as u64;
        ((len + 2047) / 2048) as u32
    }

    /// The directory's recording timestamp.
    pub fn time(&self) -> (r: DateTime)
        ensures
            r == self.spec_header().time,
    {
        self.header.time
    }

    /// Look up one entry of this directory, starting at extent byte
    /// `offset`: skip to the next block over padding or a block tail too
    /// small for a record, then decode one record. `Ok(None)` is the clean
    /// end of the directory; `Ok(Some((entry, next)))` hands back the entry
    /// and the offset at which the next lookup starts.
    ///
    /// `block` and `buf_block_num` are the caller's block cache, keyed by
    /// extent block number; the cache is only refilled when the lookup
    /// moves to a block it does not hold. An offset at or past the extent's
    /// last block is answered `Ok(None)` without any read.
    pub fn read_entry_at(
        &self,
        block: &mut Vec<u8>,
        buf_block_num: &mut Option<u64>,
        offset: u64,
    ) -> (r: Result<Option<(DirectoryEntry<T>, u64)>, ISOError>)
        requires
            old(block)@.len() == 2048,
            self.spec_buf_ok(*old(buf_block_num), old(block)@),
        ensures
            final(block)@.len() == 2048,
            self.spec_buf_ok(*final(buf_block_num), final(block)@),
            match r {
                Ok(None) => spec_dir_step(
                    self.image(),
                    self.base(),
                    self.spec_block_count_int(),
                    self.enc(),
                    offset as int / 2048,
                    offset as int % 2048,
                ) is End,
                Ok(Some((entry, next))) => {
                    &&& spec_dir_step(
                        self.image(),
                        self.base(),
                        self.spec_block_count_int(),
                        self.enc(),
                        offset as int / 2048,
                        offset as int % 2048,
                    ) matches DirStep::Entry { header, id, next: nx } && spec_entry_matches(
                        entry,
                        header,
                        id,
                        self.image(),
                    ) && next == nx
                    &&& offset < next <= self.spec_block_count_int() * 2048
                },
                Err(_) => true,
            },
            offset as int / 2048 >= self.spec_block_count_int() ==> r matches Ok(None),
            (r matches Err(e) && !(e matches ISOError::Io || e matches ISOError::ReadSize(
                _,
                _,
            ))) ==> spec_dir_step(
                self.image(),
                self.base(),
                self.spec_block_count_int(),
                self.enc(),
                offset as int / 2048,
                offset as int % 2048,
            ) is Malformed,
    {
        let ghost img = self.image();
        let ghost base_g = self.base();
        let ghost bc_g = self.spec_block_count_int();
        let mut block_num: u64 = offset / 2048;
        let mut block_pos: usize = (offset % 2048) as usize;
        let bc: u32 = self.block_count();
        proof {
            lemma_offset_split(offset as int / 2048, offset as int % 2048);
        }
        loop
            invariant
                self.spec_buf_ok(*buf_block_num, block@),
                block@.len() == 2048,
                block_pos < 2048,
                bc as int == bc_g,
                img == self.image(),
                base_g == self.base(),
                bc_g == self.spec_block_count_int(),
                block_num * 2048 + block_pos >= offset,
                block_num >= offset / 2048,
                spec_dir_step(img, base_g, bc_g, self.enc(), offset as int / 2048, offset as int
                    % 2048) == spec_dir_step(
                    img,
                    base_g,
                    bc_g,
                    self.enc(),
                    block_num as int,
                    block_pos as int,
                ),
            ensures
                block_num < bc as u64,
                block_num >= offset / 2048,
                block_pos < 2015,
                block@.len() == 2048,
                self.spec_buf_ok(*buf_block_num, block@),
                *buf_block_num == Some(block_num),
                block@[block_pos as int] != 0,
                block_num * 2048 + block_pos >= offset,
                spec_dir_step(img, base_g, bc_g, self.enc(), offset as int / 2048, offset as int
                    % 2048) == spec_dir_step(
                    img,
                    base_g,
                    bc_g,
                    self.enc(),
                    block_num as int,
                    block_pos as int,
                ),
            decreases bc_g - block_num,
        {
            if block_num >= bc as u64 {
                return Ok(None);
            }
            let cached = match *buf_block_num {
                Some(b) => b == block_num,
                None => false,
            };
            if !cached {
                *buf_block_num = None;
                let lba: u64 = self.header.extent_loc as u64 + block_num;
                let count = match self.file.read_at(block, lba) {
                    Ok(c) => c,
                    Err(e) => {
                        return Err(e);
                    },
                };
                if count != 2048 {
                    return Err(ISOError::ReadSize(2048, count));
                }
                proof {
                    assert(block@.subrange(0, 2048) =~= block@);
                }
                *buf_block_num = Some(block_num);
            }
            if block_pos >= 2015 || block[block_pos] == 0 {
                proof {
                    assert(block@ == img.subrange(
                        (base_g + block_num) * 2048,
                        (base_g + block_num) * 2048 + 2048,
                    ));
                }
                block_num = block_num + 1;
                block_pos = 0;
            } else {
                break;
            }
        }
        let (header, identifier) = match crate::parse::directory_entry::directory_entry(
            block.as_slice(),
            block_pos,
            self.header.character_encoding,
        ) {
            Ok(p) => p,
            Err(e) => {
                return Err(e);
            },
        };
        let next: u64 = block_num * 2048 + block_pos as u64 + header.length as u64;
        let entry = match DirectoryEntry::new(header, identifier, self.file.clone()) {
            Ok(e) => e,
            Err(e) => {
                return Err(e);
            },
        };
        Ok(Some((entry, next)))
    }

    /// A fresh, restartable iteration over this directory's entries,
    /// starting at the first record. Multiple iterations of one directory
    /// are independent: each carries its own block buffer and cursor.
    pub fn contents(&self) -> (it: ISODirectoryIterator<T>)
        ensures
            it.wf(),
            it.dir() == *self,
            it.cursor() == Some(0u64),
    {
        ISODirectoryIterator {
            directory: self,
            next_offset: Some(0),
            block: block_buffer(),
            block_num: None,
        }
    }

    /// Scan this directory in on-disk order for the first entry whose name
    /// equals `identifier` ASCII case-insensitively, skipping entries
    /// flagged as associated files. A missing name is `Ok(None)`, never an
    /// error; a directory with an empty extent is answered `Ok(None)`
    /// without any read. An error that is not the byte source's own
    /// (`Io`, `ReadSize`) is only ever returned for a listing that really
    /// is malformed.
    pub fn find(&self, identifier: &str) -> (r: Result<Option<DirectoryEntry<T>>, ISOError>)
        ensures
            match r {
                Ok(Some(entry)) => spec_find_from(
                    self.image(),
                    self.base(),
                    self.spec_block_count_int(),
                    self.enc(),
                    identifier@,
                    0,
                    0,
                ) matches FindResult::Found { header, id } && spec_entry_matches(
                    entry,
                    header,
                    id,
                    self.image(),
                ),
                Ok(None) => spec_find_from(
                    self.image(),
                    self.base(),
                    self.spec_block_count_int(),
                    self.enc(),
                    identifier@,
                    0,
                    0,
                ) is NotFound,
                Err(_) => true,
            },
            self.spec_block_count_int() == 0 ==> r matches Ok(None),
            (r matches Err(e) && !(e matches ISOError::Io || e matches ISOError::ReadSize(
                _,
                _,
            ))) ==> spec_find_from(
                self.image(),
                self.base(),
                self.spec_block_count_int(),
                self.enc(),
                identifier@,
                0,
                0,
            ) is Malformed,
    {
        let ghost img = self.image();
        let ghost base_g = self.base();
        let ghost bc_g = self.spec_block_count_int();
        let mut block = block_buffer();
        let mut block_num: Option<u64> = None;
        let mut offset: u64 = 0;
        loop
            invariant
                block@.len() == 2048,
                self.spec_buf_ok(block_num, block@),
                img == self.image(),
                base_g == self.base(),
                bc_g == self.spec_block_count_int(),
                0 <= bc_g,
                offset <= bc_g * 2048,
                spec_find_from(img, base_g, bc_g, self.enc(), identifier@, 0, 0)
                    == spec_find_from(
                    img,
                    base_g,
                    bc_g,
                    self.enc(),
                    identifier@,
                    offset as int / 2048,
                    offset as int % 2048,
                ),
            decreases bc_g * 2048 - offset,
        {
            proof {
                vstd::arithmetic::div_mod::lemma_fundamental_div_mod(offset as int, 2048);
                lemma_find_step(
                    img,
                    base_g,
                    bc_g,
                    self.enc(),
                    identifier@,
                    offset as int / 2048,
                    offset as int % 2048,
                );
            }
            match self.read_entry_at(&mut block, &mut block_num, offset) {
                Err(e) => {
                    return Err(e);
                },
                Ok(None) => {
                    return Ok(None);
                },
                Ok(Some((entry, next))) => {
                    let skip = match &entry {
                        DirectoryEntry::Directory(d) => d.header.file_flags.associated_file(),
                        DirectoryEntry::File(f) => f.header.file_flags.associated_file(),
                    };
                    if !skip {
                        let name: &str = entry.identifier();
                        if crate::text::str_eq_ignore_case(name, identifier) {
                            return Ok(Some(entry));
                        }
                    }
                    offset = next;
                },
            }
        }
    }
}

impl<T: ISO9660Reader> Clone for ISODirectory<T> {
    fn clone(&self) -> (r: ISODirectory<T>)
        ensures
            r.spec_header() == self.spec_header(),
            r.spec_identifier() == self.spec_identifier(),
            r.image() == self.image(),
    {
        ISODirectory {
            header: self.header,
            identifier: self.identifier.clone(),
            file: self.file.clone(),
        }
    }
}

/// Lazy iteration state over one directory: the cursor (`None` once the
/// listing has ended) and one buffered block keyed by extent block number.
pub struct ISODirectoryIterator<'a, T: ISO9660Reader> {
    directory: &'a ISODirectory<T>,
    next_offset: Option<u64>,
    block: Vec<u8>,
    block_num: Option<u64>,
}

impl<'a, T: ISO9660Reader> ISODirectoryIterator<'a, T> {
    /// The directory being iterated.
    pub closed spec fn dir(&self) -> ISODirectory<T> {
        *self.directory
    }

    /// The extent byte offset of the next lookup, `None` at the end.
    pub closed spec fn cursor(&self) -> Option<u64> {
        self.next_offset
    }

    /// The block buffer stays coherent with the image.
    pub closed spec fn wf(&self) -> bool {
        &&& self.block@.len() == 2048
        &&& self.directory.spec_buf_ok(self.block_num, self.block@)
    }

    /// The next entry: `None` at the end of the directory, `Some(Err(..))`
    /// where the listing is malformed or the byte source failed (the cursor
    /// then stays, so the same lookup is retried). A decoding error is only
    /// ever yielded for a lookup step that really is malformed.
    pub fn next(&mut self) -> (r: Option<Result<DirectoryEntry<T>, ISOError>>)
        requires
            old(self).wf(),
        ensures
            final(self).wf(),
            final(self).dir() == old(self).dir(),
            match old(self).cursor() {
                None => r is None && final(self).cursor() is None,
                Some(o) => match spec_dir_step(
                    old(self).dir().image(),
                    old(self).dir().base(),
                    old(self).dir().spec_block_count_int(),
                    old(self).dir().enc(),
                    o as int / 2048,
                    o as int % 2048,
                ) {
                    DirStep::End => (r is None && final(self).cursor() is None) || (
                    r matches Some(res) && res is Err && final(self).cursor() == old(self).cursor()),
                    DirStep::Entry { header, id, next } => (r matches Some(res) && match res {
                        Ok(entry) => spec_entry_matches(
                            entry,
                            header,
                            id,
                            old(self).dir().image(),
                        ) && final(self).cursor() == Some(next as u64),
                        Err(_) => final(self).cursor() == old(self).cursor(),
                    }),
                    DirStep::Malformed => r matches Some(res) && res is Err && final(self).cursor() == old(self).cursor(),
                },
            },
            match old(self).cursor() {
                Some(o) => o as int / 2048 >= old(self).dir().spec_block_count_int() ==> (
                r is None && final(self).cursor() is None),
                None => r is None,
            },
            match old(self).cursor() {
                Some(o) => (r matches Some(res) && res matches Err(e) && !(e matches ISOError::Io
                    || e matches ISOError::ReadSize(_, _))) ==> spec_dir_step(
                    old(self).dir().image(),
                    old(self).dir().base(),
                    old(self).dir().spec_block_count_int(),
                    old(self).dir().enc(),
                    o as int / 2048,
                    o as int % 2048,
                ) is Malformed,
                None => true,
            },
    {
        let offset = match self.next_offset {
            Some(o) => o,
            None => {
                return None;
            },
        };
        match self.directory.read_entry_at(&mut self.block, &mut self.block_num, offset) {
            Ok(None) => {
                self.next_offset = None;
                None
            },
            Ok(Some((entry, next))) => {
                self.next_offset = Some(next);
                Some(Ok(entry))
            },
            Err(e) => Some(Err(e)),
        }
    }
}


/// A lookup step that yields an entry moves strictly forward through the
/// extent and never beyond its last block: entries come in on-disk record
/// order.
pub proof fn lemma_dir_step_advances(
    img: Seq<u8>,
    base: int,
    bc: int,
    enc: CharacterEncoding,
    bn: int,
    pos: int,
)
    requires
        0 <= bn,
        0 <= pos <= 2048,
        0 <= base,
    ensures
        spec_dir_step(img, base, bc, enc, bn, pos) matches DirStep::Entry { next, .. } ==> bn
            * 2048 + pos < next <= bc * 2048,
    decreases bc - bn,
{
    if bn >= bc {
    } else if (base + bn) * 2048 + 2048 > img.len() {
    } else {
        let blk = img.subrange((base + bn) * 2048, (base + bn) * 2048 + 2048);
        if pos >= 2015 || blk[pos] == 0 {
            lemma_dir_step_advances(img, base, bc, enc, bn + 1, 0);
        }
    }
}

/// In a valid image the first two records of a directory are the raw self
/// and parent markers, and their entries show as `.` and `..`, first and in
/// on-disk record order.
pub proof fn lemma_self_parent_first(
    img: Seq<u8>,
    base: int,
    bc: int,
    enc: CharacterEncoding,
    h1: DirectoryEntryHeader,
    id1: Seq<char>,
    n1: int,
    h2: DirectoryEntryHeader,
    id2: Seq<char>,
    n2: int,
)
    requires
        0 <= base,
        spec_dir_step(img, base, bc, enc, 0, 0) == (DirStep::Entry {
            header: h1,
            id: id1,
            next: n1,
        }),
        id1 == seq!['\u{0}'],
        spec_dir_step(img, base, bc, enc, n1 / 2048, n1 % 2048) == (DirStep::Entry {
            header: h2,
            id: id2,
            next: n2,
        }),
        id2 == seq!['\u{1}'],
    ensures
        spec_entry_name(h1, id1) == seq!['.'],
        spec_entry_name(h2, id2) == seq!['.', '.'],
        0 < n1 < n2,
        h1.file_flags.spec_directory(),
        h2.file_flags.spec_directory(),
{
    lemma_dir_step_advances(img, base, bc, enc, 0, 0);
    vstd::arithmetic::div_mod::lemma_fundamental_div_mod(n1, 2048);
    lemma_dir_step_advances(img, base, bc, enc, n1 / 2048, n1 % 2048);
    assert(spec_map_identifier(id1) =~= seq!['.']);
    assert(spec_map_identifier(id2) =~= seq!['.', '.']);
    lemma_marker_entries_are_directories(img, base, bc, enc, 0, 0);
    lemma_marker_entries_are_directories(img, base, bc, enc, n1 / 2048, n1 % 2048);
}

/// A yielded entry whose identifier is a raw self or parent marker carries
/// the `Directory` flag: a file with a marker name would lack the mandatory
/// version suffix and the listing would be malformed instead.
pub proof fn lemma_marker_entries_are_directories(
    img: Seq<u8>,
    base: int,
    bc: int,
    enc: CharacterEncoding,
    bn: int,
    pos: int,
)
    requires
        0 <= bn,
        0 <= pos <= 2048,
        0 <= base,
    ensures
        match spec_dir_step(img, base, bc, enc, bn, pos) {
            DirStep::Entry { header, id, next } => (id == seq!['\u{0}'] || id == seq!['\u{1}'])
                ==> header.file_flags.spec_directory(),
            _ => true,
        },
    decreases bc - bn,
{
    if bn >= bc {
    } else if (base + bn) * 2048 + 2048 > img.len() {
    } else {
        let blk = img.subrange((base + bn) * 2048, (base + bn) * 2048 + 2048);
        if pos >= 2015 || blk[pos] == 0 {
            lemma_marker_entries_are_directories(img, base, bc, enc, bn + 1, 0);
        } else {
            match spec_dir_step(img, base, bc, enc, bn, pos) {
                DirStep::Entry { header, id, next } => {
                    if (id == seq!['\u{0}'] || id == seq!['\u{1}'])
                        && !header.file_flags.spec_directory() {
                        assert(spec_split_version(id) is Some);
                        assert(id.len() == 1);
                        assert(id.last() == '\u{0}' || id.last() == '\u{1}');
                        assert(id.last() != ';');
                        assert(id.drop_last() =~= Seq::<char>::empty());
                        assert(spec_rfind(id.drop_last(), ';') is None);
                        assert(spec_rfind(id, ';') is None);
                    }
                },
                _ => {},
            }
        }
    }
}

/// Name lookup is ASCII case-insensitive: two names that differ only in
/// ASCII letter case find the same entry.
pub proof fn lemma_find_case_insensitive(
    img: Seq<u8>,
    base: int,
    bc: int,
    enc: CharacterEncoding,
    n1: Seq<char>,
    n2: Seq<char>,
    bn: int,
    pos: int,
)
    requires
        0 <= pos <= 2048,
        crate::text::spec_str_eq_ignore_case(n1, n2),
    ensures
        spec_find_from(img, base, bc, enc, n1, bn, pos) == spec_find_from(
            img,
            base,
            bc,
            enc,
            n2,
            bn,
            pos,
        ),
    decreases bc - bn, 2048 - pos,
{
    if bn >= bc {
    } else if (base + bn) * 2048 + 2048 > img.len() {
    } else {
        let blk = img.subrange((base + bn) * 2048, (base + bn) * 2048 + 2048);
        if pos >= 2015 || blk[pos] == 0 {
            lemma_find_case_insensitive(img, base, bc, enc, n1, n2, bn + 1, 0);
        } else if !(spec_record_valid(blk, pos) && spec_decode_identifier(
            spec_record_id_bytes(blk, pos),
            enc,
        ) is Some && spec_entry_ok(
            spec_record_header(blk, pos, enc),
            spec_decode_identifier(spec_record_id_bytes(blk, pos), enc).unwrap(),
        )) {
        } else {
            let h = spec_record_header(blk, pos, enc);
            let id = spec_decode_identifier(spec_record_id_bytes(blk, pos), enc).unwrap();
            crate::text::lemma_str_eq_ignore_case_subst(spec_entry_name(h, id), n1, n2);
            if !h.file_flags.spec_associated_file() && spec_str_eq_ignore_case(
                spec_entry_name(h, id),
                n1,
            ) {
            } else {
                lemma_find_case_insensitive(img, base, bc, enc, n1, n2, bn, pos + blk[pos]);
            }
        }
    }
}
} // verus!
