//! Files: identifier handling (the mandatory `;version` suffix) and a
//! seekable, block-buffered reader over a file's byte extent.

use vstd::prelude::*;

verus! {

use crate::error::ISOError;
use crate::fileref::{FileRef, ISO9660Reader, block_buffer};
use crate::parse::directory_entry::DirectoryEntryHeader;
use crate::datetime::DateTime;
use crate::text::{
    spec_rfind,
    spec_parse_u16,
    rfind_char,
    parse_u16_chars,
};
use vstd::string::StrSliceExecFns;
use vstd::arithmetic::div_mod::lemma_fundamental_div_mod;

/// `s` with one trailing bare `.` removed: the ISO 9660 convention for a
/// file without an extension.
pub open spec fn spec_strip_dot(s: Seq<char>) -> Seq<char> {
    if s.len() > 0 && s.last() == '.' {
        s.drop_last()
    } else {
        s
    }
}

/// How a raw non-directory identifier splits: at the last `;` into a base
/// name (with one trailing `.` removed) and a version number in 1..=32767
/// decimal digits. `None` where the `;` is missing or the version does not
/// parse: that is filesystem corruption.
pub open spec fn spec_split_version(id: Seq<char>) -> Option<(Seq<char>, u16)> {
    match spec_rfind(id, ';') {
        None => None,
        Some(i) => match spec_parse_u16(id.subrange(i + 1, id.len() as int)) {
            None => None,
            Some(v) => Some((spec_strip_dot(id.subrange(0, i)), v)),
        },
    }
}

/// A plain file of the filesystem: its directory record, its display
/// identifier (version suffix stripped), and the shared reader handle.
pub struct ISOFile<T: ISO9660Reader> {
    /// The file's directory record.
    pub header: DirectoryEntryHeader,
    /// Base name: the raw identifier up to the last `;`, one trailing bare
    /// `.` removed.
    pub identifier: String,
    /// File version; ranges from 1 to 32767.
    pub version: u16,
    /// Shared handle to the mounted byte source.
    pub file: FileRef<T>,
}

impl<T: ISO9660Reader> ISOFile<T> {
    /// The image this file was mounted from.
    pub open spec fn image(&self) -> Seq<u8> {
        self.file.image()
    }

    /// The file's directory record, for contracts.
    pub open spec fn spec_header(&self) -> DirectoryEntryHeader {
        self.header
    }

    /// The display identifier's characters, for contracts.
    pub open spec fn spec_identifier(&self) -> Seq<char> {
        self.identifier@
    }

    /// The file version, for contracts.
    pub open spec fn spec_version(&self) -> u16 {
        self.version
    }

    /// Build a file entry from its record and raw identifier. The identifier
    /// must carry the `;version` suffix: its absence is `InvalidFs`, a
    /// malformed version number is `ParseInt`.
    pub(crate) fn new(header: DirectoryEntryHeader, identifier: String, file: FileRef<T>) -> (r:
        Result<ISOFile<T>, ISOError>)
        ensures
            match r {
                Ok(f) => spec_split_version(identifier@) == Some(
                    (f.spec_identifier(), f.spec_version()),
                ) && f.spec_header() == header && f.image() == file.image(),
                Err(e) => spec_split_version(identifier@) is None && match e {
                    ISOError::InvalidFs(_) => spec_rfind(identifier@, ';') is None,
                    ISOError::ParseInt => spec_rfind(identifier@, ';') is Some,
                    _ => false,
                },
            },
    {
        let id = identifier.as_str();
        let n = id.unicode_len();
        let idx = match rfind_char(id, ';') {
            Some(i) => i,
            None => {
                return Err(ISOError::InvalidFs("file identifier missing ';'"));
            },
        };
        let version_str = id.substring_char(idx + 1, n);
        let version = match parse_u16_chars(version_str) {
            Some(v) => v,
            None => {
                return Err(ISOError::ParseInt);
            },
        };
        let base = id.substring_char(0, idx);
        let bn = base.unicode_len();
        let stripped: &str = if bn > 0 && base.get_char(bn - 1) == '.' {
            let s = base.substring_char(0, bn - 1);
            proof {
                assert(base@.drop_last() =~= base@.subrange(0, bn - 1));
            }
            s
        } else {
            base
        };
        Ok(
            ISOFile {
                header,
                identifier: stripped.to_owned(),
                version,
                file,
            },
        )
    }

    /// The file's length in bytes.
    pub fn size(&self) -> (r: u32)
        ensures
            r == self.spec_header().extent_length,
    {
        self.header.extent_length
    }

    /// The file's recording timestamp.
    pub fn time(&self) -> (r: DateTime)
        ensures
            r == self.spec_header().time,
    {
        self.header.time
    }

    /// A fresh reader over the file's content, positioned at byte 0.
    pub fn read(&self) -> (r: ISOFileReader<T>)
        ensures
            r.wf(),
            r.image() == self.image(),
            r.cursor() == 0,
            r.file_size() == self.spec_header().extent_length,
            r.extent_start() == self.spec_header().extent_loc,
    {
        ISOFileReader {
            buf: block_buffer(),
            buf_lba: None,
            seek: 0,
            start_lba: self.header.extent_loc,
            size: self.header.extent_length,
            file: self.file.clone(),
        }
    }
}

impl<T: ISO9660Reader> Clone for ISOFile<T> {
    fn clone(&self) -> (r: ISOFile<T>)
        ensures
            r.spec_header() == self.spec_header(),
            r.spec_identifier() == self.spec_identifier(),
            r.spec_version() == self.spec_version(),
            r.image() == self.image(),
    {
        ISOFile {
            header: self.header,
            identifier: self.identifier.clone(),
            version: self.version,
            file: self.file.clone(),
        }
    }
}

/// Where a seek starts from.
#[derive(Clone, Copy, Debug, PartialEq, Eq, Structural)]
pub enum SeekFrom {
    /// From byte 0 of the file.
    Start(u64),
    /// From the end of the file.
    End(i64),
    /// From the current cursor.
    Current(i64),
}

/// The absolute byte position a seek names, or `None` where the position is
/// negative or beyond `i64::MAX` (a fatal "invalid seek").
pub open spec fn spec_seek_target(pos: SeekFrom, cur: u64, size: u32) -> Option<int> {
    let t = match pos {
        SeekFrom::Start(p) => p as int,
        SeekFrom::End(d) => size as int + d as int,
        SeekFrom::Current(d) => cur as int + d as int,
    };
    if 0 <= t <= i64::MAX as int {
        Some(t)
    } else {
        None
    }
}

/// Random access over one file's byte extent. Holds one buffered block,
/// keyed by its absolute block address, and a byte cursor from the start of
/// the file. Seeking past end-of-file is allowed; a read there returns 0.
pub struct ISOFileReader<T: ISO9660Reader> {
    buf: Vec<u8>,
    buf_lba: Option<u64>,
    seek: u64,
    start_lba: u32,
    size: u32,
    file: FileRef<T>,
}

impl<T: ISO9660Reader> ISOFileReader<T> {
    /// The image this reader reads from.
    pub closed spec fn image(&self) -> Seq<u8> {
        self.file.image()
    }

    /// The byte cursor, counted from the start of the file.
    pub closed spec fn cursor(&self) -> u64 {
        self.seek
    }

    /// The file's length in bytes.
    pub closed spec fn file_size(&self) -> u32 {
        self.size
    }

    /// The first block of the file's extent.
    pub closed spec fn extent_start(&self) -> u32 {
        self.start_lba
    }

    /// The buffer holds a whole block of the image, keyed by its address,
    /// and the cursor stays in `i64` range.
    pub closed spec fn wf(&self) -> bool {
        &&& self.buf@.len() == 2048
        &&& self.seek <= i64::MAX as u64
        &&& match self.buf_lba {
            Some(l) => l as int * 2048 + 2048 <= self.image().len() && self.buf@
                == self.image().subrange(l as int * 2048, l as int * 2048 + 2048),
            None => true,
        }
    }

    /// Move the cursor. A negative target, or one beyond `i64::MAX`, is a
    /// fatal error and leaves the cursor unchanged; any non-negative target
    /// is accepted, even past end-of-file.
    pub fn seek(&mut self, pos: SeekFrom) -> (r: Result<u64, ISOError>)
        requires
            old(self).wf(),
        ensures
            final(self).wf(),
            final(self).image() == old(self).image(),
            final(self).file_size() == old(self).file_size(),
            final(self).extent_start() == old(self).extent_start(),
            match spec_seek_target(pos, old(self).cursor(), old(self).file_size()) {
                Some(t) => r matches Ok(p) && p == t && final(self).cursor() == t,
                None => r matches Err(e) && (e matches ISOError::InvalidFs(_)) && final(self).cursor() == old(self).cursor(),
            },
    {
        let target: i128 = match pos {
            SeekFrom::Start(p) => p as i128,
            SeekFrom::End(d) => self.size as i128 + d as i128,
            SeekFrom::Current(d) => self.seek as i128 + d as i128,
        };
        if target < 0 || target > i64::MAX as i128 {
            return Err(ISOError::InvalidFs("invalid seek"));
        }
        self.seek = target as u64;
        Ok(target as u64)
    }

    /// Fill the start of `dest` from the file, starting at the cursor:
    /// as many bytes as `dest` holds, bounded by what remains of the file.
    /// Zero bytes means end-of-file, never an error: at or past end-of-file,
    /// and for an empty destination, the read does no I/O and succeeds. The
    /// cursor advances by exactly the bytes read; on an error it does not
    /// move.
    pub fn read(&mut self, dest: &mut Vec<u8>) -> (r: Result<usize, ISOError>)
        requires
            old(self).wf(),
        ensures
            final(self).wf(),
            final(self).image() == old(self).image(),
            final(self).file_size() == old(self).file_size(),
            final(self).extent_start() == old(self).extent_start(),
            final(dest)@.len() == old(dest)@.len(),
            match r {
                Ok(n) => {
                    let sz = old(self).file_size() as int;
                    let cur = old(self).cursor() as int;
                    let avail = if cur >= sz {
                        0
                    } else {
                        sz - cur
                    };
                    let want = old(dest)@.len() as int;
                    &&& n == (if want <= avail {
                        want
                    } else {
                        avail
                    })
                    &&& final(self).cursor() == cur + n
                    &&& (n > 0 ==> old(self).extent_start() as int * 2048 + cur + n <= old(self).image().len() && final(dest)@.subrange(0, n as int) == old(self).image().subrange(
                        old(self).extent_start() as int * 2048 + cur,
                        old(self).extent_start() as int * 2048 + cur + n,
                    ))
                    &&& final(dest)@.subrange(n as int, final(dest)@.len() as int) == old(dest)@.subrange(n as int, old(dest)@.len() as int)
                },
                Err(_) => final(self).cursor() == old(self).cursor(),
            },
            old(self).cursor() >= old(self).file_size() || old(dest)@.len() == 0 ==> r is Ok,
    {
        let want = dest.len();
        let size64 = self.size as u64;
        let base = self.start_lba as u64;
        let start = self.seek;
        let mut cur = self.seek;
        let mut copied: usize = 0;
        let ghost img = self.image();
        while copied < want && cur < size64
            invariant
                self.wf(),
                self.image() == img,
                img == old(self).image(),
                self.file_size() == old(self).file_size(),
                self.extent_start() == old(self).extent_start(),
                self.cursor() == start,
                size64 == self.size as u64,
                base == self.start_lba as u64,
                start == old(self).cursor(),
                copied <= want,
                dest@.len() == want == old(dest)@.len(),
                cur == start + copied,
                cur <= size64 || (cur == start && copied == 0),
                copied > 0 ==> base as int * 2048 + cur <= img.len(),
                forall|m: int|
                    0 <= m < copied ==> dest@[m] == img[base as int * 2048 + start + m],
                forall|m: int| copied <= m < want ==> dest@[m] == old(dest)@[m],
            decreases want - copied,
        {
            let lba: u64 = base + cur / 2048;
            let cached = match self.buf_lba {
                Some(l) => l == lba,
                None => false,
            };
            if !cached {
                self.buf_lba = None;
                let count = match self.file.read_at(&mut self.buf, lba) {
                    Ok(c) => c,
                    Err(e) => {
                        return Err(e);
                    },
                };
                if count != 2048 {
                    return Err(ISOError::ReadSize(2048, count));
                }
                proof {
                    assert(self.buf@.subrange(0, 2048) =~= self.buf@);
                }
                self.buf_lba = Some(lba);
            }
            let in_block: usize = (cur % 2048) as usize;
            proof {
                lemma_fundamental_div_mod(cur as int, 2048);
            }
            let block_avail: usize = 2048 - in_block;
            let file_avail: u64 = size64 - cur;
            let room: usize = want - copied;
            let mut n: usize = block_avail;
            if file_avail < n as u64 {
                n = file_avail as usize;
            }
            if room < n {
                n = room;
            }
            let mut j: usize = 0;
            while j < n
                invariant
                    j <= n,
                    copied + n <= want,
                    in_block + n <= 2048,
                    dest@.len() == want == old(dest)@.len(),
                    self.buf@.len() == 2048,
                    forall|m: int|
                        0 <= m < copied ==> dest@[m] == img[base as int * 2048 + start + m],
                    forall|m: int|
                        copied <= m < copied + j ==> dest@[m] == self.buf@[in_block + (m
                            - copied)],
                    forall|m: int| copied + j <= m < want ==> dest@[m] == old(dest)@[m],
                decreases n - j,
            {
                dest[copied + j] = self.buf[in_block + j];
                j = j + 1;
            }
            proof {
                let l = lba as int;
                assert(base as int * 2048 + cur == l * 2048 + in_block);
                assert(self.buf@ == img.subrange(l * 2048, l * 2048 + 2048));
                assert(forall|m: int|
                    copied <= m < copied + n ==> dest@[m] == img[base as int * 2048 + start
                        + m]);
            }
            copied = copied + n;
            cur = cur + n as u64;
        }
        self.seek = cur;
        proof {
            assert(dest@.subrange(copied as int, want as int) =~= old(dest)@.subrange(
                copied as int,
                want as int,
            ));
            if copied > 0 {
                assert(dest@.subrange(0, copied as int) =~= img.subrange(
                    base as int * 2048 + start,
                    base as int * 2048 + start + copied,
                ));
            }
        }
        Ok(copied)
    }
}


/// Chunked sequential reads reconstruct a file's content exactly,
/// independent of the chunk sizes used: where the bytes gathered so far are
/// the content's first `cur` bytes and one more read hands back the `n`
/// bytes at the cursor (as [`ISOFileReader::read`] ensures), the gathered
/// bytes now are the content's first `cur + n` bytes; a pass that reaches
/// end-of-file has gathered exactly the whole content, all
/// `extent_length` of its bytes.
pub proof fn lemma_read_round_trip(
    content: Seq<u8>,
    acc: Seq<u8>,
    chunk: Seq<u8>,
    cur: int,
    n: int,
)
    requires
        0 <= cur,
        0 <= n,
        cur + n <= content.len(),
        acc == content.subrange(0, cur),
        chunk == content.subrange(cur, cur + n),
    ensures
        acc + chunk == content.subrange(0, cur + n),
        cur + n == content.len() ==> acc + chunk == content,
{
    assert(acc + chunk =~= content.subrange(0, cur + n));
    if cur + n == content.len() {
        assert(content.subrange(0, cur + n) =~= content);
    }
}
} // verus!
