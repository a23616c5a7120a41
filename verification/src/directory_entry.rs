//! Directory entries: the closed sum of directories and files, selected
//! once at parse time by the `Directory` flag bit of the record.

use vstd::prelude::*;

pub mod isodirectory;
pub mod isofile;

verus! {

use crate::error::ISOError;
use crate::fileref::{FileRef, ISO9660Reader};
use crate::parse::directory_entry::DirectoryEntryHeader;
use crate::directory_entry::isodirectory::{ISODirectory, spec_map_identifier};
use crate::directory_entry::isofile::{ISOFile, spec_split_version};

/// One entry of a directory: a subdirectory or a plain file.
pub enum DirectoryEntry<T: ISO9660Reader> {
    Directory(ISODirectory<T>),
    File(ISOFile<T>),
}

/// A record with this header and decoded identifier makes a well-formed
/// entry: directories always do, files only where the identifier carries
/// its `;version` suffix.
pub open spec fn spec_entry_ok(h: DirectoryEntryHeader, id: Seq<char>) -> bool {
    h.file_flags.spec_directory() || spec_split_version(id) is Some
}

/// The name an entry built from this header and decoded identifier shows:
/// for directories the identifier with the self and parent markers mapped,
/// for files the base name without the version suffix.
pub open spec fn spec_entry_name(h: DirectoryEntryHeader, id: Seq<char>) -> Seq<char> {
    if h.file_flags.spec_directory() {
        spec_map_identifier(id)
    } else {
        match spec_split_version(id) {
            Some(p) => p.0,
            None => id,
        }
    }
}

/// `e` is exactly the entry that the record with header `h` and decoded
/// identifier `id` describes, over the image `img`.
pub open spec fn spec_entry_matches<T: ISO9660Reader>(
    e: DirectoryEntry<T>,
    h: DirectoryEntryHeader,
    id: Seq<char>,
    img: Seq<u8>,
) -> bool {
    match e {
        DirectoryEntry::Directory(d) => h.file_flags.spec_directory() && d.spec_header() == h
            && d.spec_identifier() == spec_map_identifier(id) && d.image() == img,
        DirectoryEntry::File(f) => !h.file_flags.spec_directory() && f.spec_header() == h && Some(
            (f.spec_identifier(), f.spec_version()),
        ) == spec_split_version(id) && f.image() == img,
    }
}

impl<T: ISO9660Reader> DirectoryEntry<T> {
    /// The image this entry was mounted from.
    pub open spec fn image(&self) -> Seq<u8> {
        match self {
            DirectoryEntry::Directory(d) => d.image(),
            DirectoryEntry::File(f) => f.image(),
        }
    }

    /// Classify a decoded record by its `Directory` flag and wrap it.
    pub(crate) fn new(header: DirectoryEntryHeader, identifier: String, file: FileRef<T>) -> (r:
        Result<DirectoryEntry<T>, ISOError>)
        ensures
            match r {
                Ok(e) => spec_entry_ok(header, identifier@) && spec_entry_matches(
                    e,
                    header,
                    identifier@,
                    file.image(),
                ),
                Err(e) => !spec_entry_ok(header, identifier@) && (e matches ISOError::InvalidFs(_)
                    || e matches ISOError::ParseInt),
            },
    {
        if header.file_flags.directory() {
            Ok(DirectoryEntry::Directory(ISODirectory::new(header, identifier, file)))
        } else {
            match ISOFile::new(header, identifier, file) {
                Ok(f) => Ok(DirectoryEntry::File(f)),
                Err(e) => Err(e),
            }
        }
    }

    /// The entry's record.
    pub(crate) fn header(&self) -> (r: &DirectoryEntryHeader)
        ensures
            *r == match self {
                DirectoryEntry::Directory(d) => d.spec_header(),
                DirectoryEntry::File(f) => f.spec_header(),
            },
    {
        match self {
            DirectoryEntry::Directory(d) => &d.header,
            DirectoryEntry::File(f) => &f.header,
        }
    }

    /// The entry's display identifier.
    pub fn identifier(&self) -> (r: &str)
        ensures
            r@ == match self {
                DirectoryEntry::Directory(d) => d.spec_identifier(),
                DirectoryEntry::File(f) => f.spec_identifier(),
            },
    {
        match self {
            DirectoryEntry::Directory(d) => d.identifier.as_str(),
            DirectoryEntry::File(f) => f.identifier.as_str(),
        }
    }
}

impl<T: ISO9660Reader> Clone for DirectoryEntry<T> {
    fn clone(&self) -> (r: DirectoryEntry<T>)
        ensures
            match (self, r) {
                (DirectoryEntry::Directory(d), DirectoryEntry::Directory(rd)) => rd.spec_header()
                    == d.spec_header() && rd.spec_identifier() == d.spec_identifier()
                    && rd.image() == d.image(),
                (DirectoryEntry::File(f), DirectoryEntry::File(rf)) => rf.spec_header()
                    == f.spec_header() && rf.spec_identifier() == f.spec_identifier()
                    && rf.spec_version() == f.spec_version() && rf.image() == f.image(),
                _ => false,
            },
    {
        match self {
            DirectoryEntry::Directory(d) => DirectoryEntry::Directory(d.clone()),
            DirectoryEntry::File(f) => DirectoryEntry::File(f.clone()),
        }
    }
}

} // verus!
