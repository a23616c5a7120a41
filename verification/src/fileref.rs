//! The byte source a filesystem is mounted over, and the shared handle
//! through which every directory and file derived from one mount reads it.

use vstd::prelude::*;

verus! {

use std::rc::Rc;

use crate::error::ISOError;

/// A random-access byte source holding an ISO 9660 image.
///
/// `image()` is the full byte content of the source. Reads are positional
/// (`&self`), so sharing a source between directories and files needs no
/// interior mutability and no locking.
pub trait ISO9660Reader {
    /// The bytes of the image this source reads.
    spec fn image(&self) -> Seq<u8>;

    /// Read up to 2048 bytes of the block at logical block address `lba`
    /// into the start of `buf`, returning how many bytes were read. Zero
    /// bytes past the end of the image is a normal outcome, not an error.
    /// A failing source reports `Io`, or `ReadSize` with the full block
    /// size it was asked for — never a decoding error: the decoding errors
    /// stay reserved for the image's content.
    fn read_at(&self, buf: &mut Vec<u8>, lba: u64) -> (r: Result<usize, ISOError>)
        requires
            old(buf)@.len() == 2048,
        ensures
            final(buf)@.len() == 2048,
            self.image().len() <= 0xffff_ffff_ffff_ffff,
            match r {
                Ok(count) => count <= 2048 && (count > 0 ==> lba as int * 2048 + count
                    <= self.image().len() && final(buf)@.subrange(0, count as int)
                    == self.image().subrange(
                    lba as int * 2048,
                    lba as int * 2048 + count,
                )),
                Err(e) => e matches ISOError::Io || e matches ISOError::ReadSize(2048, _),
            },
    ;
}

/// Shared, reference-counted handle to one mounted byte source. Every
/// directory, file and iterator of a mount reads through clones of the one
/// handle created at mount time.
pub struct FileRef<T: ISO9660Reader>(Rc<T>);

impl<T: ISO9660Reader> FileRef<T> {
    /// The image seen through this handle.
    pub closed spec fn image(&self) -> Seq<u8> {
        (*self.0).image()
    }

    /// Wrap a byte source in a shared handle.
    pub fn new(reader: T) -> (r: FileRef<T>)
        ensures
            r.image() == reader.image(),
    {
        FileRef(Rc::new(reader))
    }

    /// Read the block at `lba`; see [`ISO9660Reader::read_at`].
    pub fn read_at(&self, buf: &mut Vec<u8>, lba: u64) -> (r: Result<usize, ISOError>)
        requires
            old(buf)@.len() == 2048,
        ensures
            final(buf)@.len() == 2048,
            self.image().len() <= 0xffff_ffff_ffff_ffff,
            match r {
                Ok(count) => count <= 2048 && (count > 0 ==> lba as int * 2048 + count
                    <= self.image().len() && final(buf)@.subrange(0, count as int)
                    == self.image().subrange(
                    lba as int * 2048,
                    lba as int * 2048 + count,
                )),
                Err(e) => e matches ISOError::Io || e matches ISOError::ReadSize(2048, _),
            },
    {
        (&*self.0).read_at(buf, lba)
    }
}

impl<T: ISO9660Reader> Clone for FileRef<T> {
    fn clone(&self) -> (r: FileRef<T>)
        ensures
            r.image() == self.image(),
    {
        FileRef(self.0.clone())
    }
}

/// A byte source over an in-memory image. Tests and front ends that read a
/// whole image into memory mount through this adapter.
pub struct MemoryReader {
    data: Vec<u8>,
}

impl MemoryReader {
    /// Wrap an in-memory image.
    pub fn new(data: Vec<u8>) -> (r: MemoryReader)
        ensures
            r.image() == data@,
    {
        MemoryReader { data }
    }
}

impl ISO9660Reader for MemoryReader {
    closed spec fn image(&self) -> Seq<u8> {
        self.data@
    }

    /// Total: an in-memory read never fails, and it returns exactly the
    /// bytes the image holds at the block — a full block inside the image,
    /// the remainder at its end, nothing past it.
    fn read_at(&self, buf: &mut Vec<u8>, lba: u64) -> (r: Result<usize, ISOError>)
        ensures
            match r {
                Ok(count) => count as int == (if (lba as int + 1) * 2048 <= self.image().len() {
                    2048int
                } else if lba as int * 2048 <= self.image().len() {
                    self.image().len() - lba as int * 2048
                } else {
                    0int
                }),
                Err(_) => false,
            },
    {
        let len = self.data.len();
        assert(len <= usize::MAX);
        if lba > (len as u64) / 2048 {
            proof {
                vstd::arithmetic::div_mod::lemma_fundamental_div_mod(len as int, 2048);
            }
            return Ok(0);
        }
        let pos = (lba as usize) * 2048;
        assert(pos <= len);
        let avail = len - pos;
        let count = if avail < 2048 {
            avail
        } else {
            2048
        };
        let mut i: usize = 0;
        while i < count
            invariant
                count <= 2048,
                self.data@.len() <= usize::MAX,
                pos + count <= self.data@.len(),
                i <= count,
                buf@.len() == 2048,
                forall|j: int| 0 <= j < i ==> buf@[j] == self.data@[pos + j],
            decreases count - i,
        {
            buf[i] = self.data[pos + i];
            i = i + 1;
        }
        assert(buf@.subrange(0, count as int) =~= self.data@.subrange(
            pos as int,
            pos as int + count,
        ));
        Ok(count)
    }
}


/// A fresh 2048-byte block buffer, zero-filled.
pub fn block_buffer() -> (v: Vec<u8>)
    ensures
        v@.len() == 2048,
{
    let mut v: Vec<u8> = Vec::new();
    let mut i: usize = 0;
    while i < 2048
        invariant
            i <= 2048,
            v@.len() == i,
        decreases 2048 - i,
    {
        v.push(0);
        i = i + 1;
    }
    v
}
} // verus!
