//! End-to-end tests over in-memory ISO 9660 images built record by record.

use iso9660::{
    both_endian16, both_endian32, date_time, date_time_ascii, BothEndian16, BothEndian32,
    DirectoryEntry, ISOError, ISO9660, MemoryReader, SeekFrom,
};

const BLOCK: usize = 2048;

/// Write a both-endian 16-bit field.
fn put_both16(buf: &mut [u8], off: usize, v: u16) {
    buf[off..off + 2].copy_from_slice(&v.to_le_bytes());
    buf[off + 2..off + 4].copy_from_slice(&v.to_be_bytes());
}

/// Write a both-endian 32-bit field.
fn put_both32(buf: &mut [u8], off: usize, v: u32) {
    buf[off..off + 4].copy_from_slice(&v.to_le_bytes());
    buf[off + 4..off + 8].copy_from_slice(&v.to_be_bytes());
}

/// One directory record: fixed 33-byte header, identifier, even padding.
fn record(loc: u32, len: u32, flags: u8, id: &[u8]) -> Vec<u8> {
    let mut rec_len = 33 + id.len();
    if rec_len % 2 == 1 {
        rec_len += 1;
    }
    let mut r = vec![0u8; rec_len];
    r[0] = rec_len as u8;
    r[1] = 0;
    r[2..6].copy_from_slice(&loc.to_le_bytes());
    r[6..10].copy_from_slice(&loc.to_be_bytes());
    r[10..14].copy_from_slice(&len.to_le_bytes());
    r[14..18].copy_from_slice(&len.to_be_bytes());
    // 7-byte binary timestamp: 1980-01-01 00:00:00 GMT
    r[18] = 80;
    r[19] = 1;
    r[20] = 1;
    r[25] = flags;
    put_both16(&mut r, 28, 1);
    r[32] = id.len() as u8;
    r[33..33 + id.len()].copy_from_slice(id);
    r
}

/// Lay records into blocks: a record never spans a block; the tail of each
/// block is zero padding.
fn pack_directory(records: &[Vec<u8>], block_count: usize) -> Vec<u8> {
    let mut out = vec![0u8; block_count * BLOCK];
    let mut block = 0usize;
    let mut pos = 0usize;
    for r in records {
        if pos + r.len() > BLOCK {
            block += 1;
            pos = 0;
        }
        assert!(block < block_count, "directory overflows its extent");
        out[block * BLOCK + pos..block * BLOCK + pos + r.len()].copy_from_slice(r);
        pos += r.len();
    }
    out
}

/// A Primary (1) or Supplementary (2) volume descriptor block.
fn descriptor(type_code: u8, escape: &[u8], root_rec: &[u8], total_blocks: u32) -> Vec<u8> {
    let mut b = vec![0u8; BLOCK];
    b[0] = type_code;
    b[1..6].copy_from_slice(b"CD001");
    b[6] = 1;
    for i in 8..72 {
        b[i] = b' ';
    }
    put_both32(&mut b, 80, total_blocks);
    b[88..88 + escape.len()].copy_from_slice(escape);
    put_both16(&mut b, 120, 1);
    put_both16(&mut b, 124, 1);
    put_both16(&mut b, 128, 2048);
    assert_eq!(root_rec.len(), 34);
    b[156..190].copy_from_slice(root_rec);
    for i in 190..813 {
        b[i] = b' ';
    }
    b[190..206].copy_from_slice(b"TEST VOLUME SET ");
    for t in 0..4 {
        let off = 813 + t * 17;
        b[off..off + 16].copy_from_slice(b"1980010100000000");
        b[off + 16] = 0;
    }
    b[881] = 1;
    b
}

/// A volume descriptor set terminator block.
fn terminator() -> Vec<u8> {
    let mut b = vec![0u8; BLOCK];
    b[0] = 255;
    b[1..6].copy_from_slice(b"CD001");
    b[6] = 1;
    b
}

/// The content of the fixture's one large file: 5000 bytes, fixed.
fn fixture_file_content() -> Vec<u8> {
    (0..5000u32).map(|i| (i % 251) as u8).collect()
}

/// UCS-2 / UTF-16BE bytes of an ASCII name, for Joliet identifiers.
fn ucs2(name: &str) -> Vec<u8> {
    let mut v = Vec::new();
    for c in name.chars() {
        v.push(0);
        v.push(c as u8);
    }
    v
}

/// Layout of the primary fixture image:
/// block 16 Primary descriptor, 17 terminator, 20 root directory,
/// 21 directory A, 22 directory B, 23..=26 directory C (202 entries),
/// 30..=32 content of GPL_3_0.TXT (5000 bytes).
fn fixture() -> Vec<u8> {
    let total_blocks = 33u32;
    let mut img = vec![0u8; total_blocks as usize * BLOCK];

    let root_rec34 = record(20, 2048, 0x02, &[0]);
    let pvd = descriptor(1, &[0u8; 32], &root_rec34, total_blocks);
    img[16 * BLOCK..17 * BLOCK].copy_from_slice(&pvd);
    img[17 * BLOCK..18 * BLOCK].copy_from_slice(&terminator());

    let content = fixture_file_content();
    img[30 * BLOCK..30 * BLOCK + content.len()].copy_from_slice(&content);

    let root = pack_directory(
        &[
            record(20, 2048, 0x02, &[0]),
            record(20, 2048, 0x02, &[1]),
            record(21, 2048, 0x02, b"A"),
            record(30, content.len() as u32, 0x00, b"GPL_3_0.TXT;1"),
        ],
        1,
    );
    img[20 * BLOCK..21 * BLOCK].copy_from_slice(&root);

    let dir_a = pack_directory(
        &[
            record(21, 2048, 0x02, &[0]),
            record(20, 2048, 0x02, &[1]),
            record(22, 2048, 0x02, b"B"),
            record(30, 16, 0x04, b"HIDDEN.TXT;1"),
        ],
        1,
    );
    img[21 * BLOCK..22 * BLOCK].copy_from_slice(&dir_a);

    let dir_b = pack_directory(
        &[
            record(22, 2048, 0x02, &[0]),
            record(21, 2048, 0x02, &[1]),
            record(23, 8192, 0x02, b"C"),
        ],
        1,
    );
    img[22 * BLOCK..23 * BLOCK].copy_from_slice(&dir_b);

    let mut c_records = vec![record(23, 8192, 0x02, &[0]), record(22, 2048, 0x02, &[1])];
    for n in 1..=200u32 {
        let name = format!("{};1", n);
        c_records.push(record(30, 16, 0x00, name.as_bytes()));
    }
    let dir_c = pack_directory(&c_records, 4);
    img[23 * BLOCK..27 * BLOCK].copy_from_slice(&dir_c);

    img
}

/// A fixture with both a Primary and a Joliet (Supplementary) descriptor.
/// The Joliet root at block 21 names the file in UCS-2.
fn joliet_fixture() -> Vec<u8> {
    let total_blocks = 32u32;
    let mut img = vec![0u8; total_blocks as usize * BLOCK];

    let proot34 = record(20, 2048, 0x02, &[0]);
    let pvd = descriptor(1, &[0u8; 32], &proot34, total_blocks);
    img[16 * BLOCK..17 * BLOCK].copy_from_slice(&pvd);

    let jroot34 = record(21, 2048, 0x02, &[0]);
    let svd = descriptor(2, &[0x25, 0x2f, 0x40], &jroot34, total_blocks);
    img[17 * BLOCK..18 * BLOCK].copy_from_slice(&svd);
    img[18 * BLOCK..19 * BLOCK].copy_from_slice(&terminator());

    let content = b"joliet file body";
    img[30 * BLOCK..30 * BLOCK + content.len()].copy_from_slice(content);

    let proot = pack_directory(
        &[
            record(20, 2048, 0x02, &[0]),
            record(20, 2048, 0x02, &[1]),
            record(30, content.len() as u32, 0x00, b"LONGNAME.TXT;1"),
        ],
        1,
    );
    img[20 * BLOCK..21 * BLOCK].copy_from_slice(&proot);

    let jroot = pack_directory(
        &[
            record(21, 2048, 0x02, &[0]),
            record(21, 2048, 0x02, &[1]),
            record(30, content.len() as u32, 0x00, &ucs2("Long Name.txt;1")),
        ],
        1,
    );
    img[21 * BLOCK..22 * BLOCK].copy_from_slice(&jroot);

    img
}

fn mount(img: Vec<u8>) -> ISO9660<MemoryReader> {
    ISO9660::new(MemoryReader::new(img)).unwrap()
}

/// The error a mount of `img` fails with.
fn mount_err(img: Vec<u8>) -> ISOError {
    match ISO9660::new(MemoryReader::new(img)) {
        Err(e) => e,
        Ok(_) => panic!("expected the mount to fail"),
    }
}

/// Read a whole file through its reader in chunks of `chunk` bytes.
fn read_all(file: &iso9660::ISOFile<MemoryReader>, chunk: usize) -> Vec<u8> {
    let mut reader = file.read();
    let mut out = Vec::new();
    loop {
        let mut buf = vec![0u8; chunk];
        let n = reader.read(&mut buf).unwrap();
        if n == 0 {
            return out;
        }
        out.extend_from_slice(&buf[..n]);
    }
}

#[test]
fn test_dir() {
    let fs = mount(fixture());
    let mut iter = fs.root.contents();
    assert_eq!(iter.next().unwrap().unwrap().identifier(), ".");
    assert_eq!(iter.next().unwrap().unwrap().identifier(), "..");
    assert_eq!(iter.next().unwrap().unwrap().identifier(), "A");
    assert_eq!(iter.next().unwrap().unwrap().identifier(), "GPL_3_0.TXT");
    assert!(iter.next().is_none());
}

#[test]
fn test_large_file() {
    let fs = mount(fixture());
    let file = match fs.open("gpl_3_0.txt").unwrap().unwrap() {
        DirectoryEntry::File(file) => file,
        _ => panic!("Not a file"),
    };
    let text = read_all(&file, 8192);
    let hash = md5::compute(&text);
    assert_eq!(format!("{:x}", hash), "046b3239eaade30920069f171518d956");
}

#[test]
fn test_extra_slashes() {
    let fs = mount(fixture());
    assert!(fs.open("///a/b/c/1").unwrap().is_some());
    assert!(fs.open("a/b/c/1///").unwrap().is_some());
    assert!(fs.open("a/b//c/1").unwrap().is_some());
    assert!(fs.open("/a/b//c////1/").unwrap().is_some());
}

#[test]
fn test_large_dir() {
    let fs = mount(fixture());
    let dir = match fs.open("a/b/c").unwrap().unwrap() {
        DirectoryEntry::Directory(dir) => dir,
        _ => panic!("Not a directory"),
    };
    let mut count = 0usize;
    let mut iter = dir.contents();
    while let Some(entry) = iter.next() {
        entry.unwrap();
        count += 1;
    }
    // 200 files, plus '.' and '..'
    assert_eq!(count, 202);
    assert_eq!(dir.block_count(), 4);
}

#[test]
fn test_multi_block_dir_names() {
    let fs = mount(fixture());
    let dir = match fs.open("a/b/c").unwrap().unwrap() {
        DirectoryEntry::Directory(dir) => dir,
        _ => panic!("Not a directory"),
    };
    let mut names = Vec::new();
    let mut iter = dir.contents();
    while let Some(entry) = iter.next() {
        names.push(entry.unwrap().identifier().to_string());
    }
    assert_eq!(names[0], ".");
    assert_eq!(names[1], "..");
    for n in 1..=200usize {
        assert_eq!(names[n + 1], format!("{}", n));
    }
}

#[test]
fn test_find_case_insensitive_and_missing() {
    let fs = mount(fixture());
    let found = fs.root.find("gpl_3_0.txt").unwrap();
    assert!(found.is_some());
    assert_eq!(found.unwrap().identifier(), "GPL_3_0.TXT");
    assert!(fs.root.find("missing").unwrap().is_none());
}

#[test]
fn test_find_skips_associated_files() {
    let fs = mount(fixture());
    let dir = match fs.open("A").unwrap().unwrap() {
        DirectoryEntry::Directory(dir) => dir,
        _ => panic!("Not a directory"),
    };
    // The entry exists in the listing...
    let mut seen = false;
    let mut iter = dir.contents();
    while let Some(entry) = iter.next() {
        if entry.unwrap().identifier() == "HIDDEN.TXT" {
            seen = true;
        }
    }
    assert!(seen);
    // ...but lookups skip it.
    assert!(dir.find("hidden.txt").unwrap().is_none());
    assert!(fs.open("a/hidden.txt").unwrap().is_none());
}

#[test]
fn test_chunked_reads_round_trip() {
    let fs = mount(fixture());
    let file = match fs.open("GPL_3_0.TXT").unwrap().unwrap() {
        DirectoryEntry::File(file) => file,
        _ => panic!("Not a file"),
    };
    let expected = fixture_file_content();
    assert_eq!(file.size() as usize, expected.len());
    for chunk in [1usize, 7, 2048, 100000] {
        let got = read_all(&file, chunk);
        assert_eq!(got.len() as u32, file.size());
        assert_eq!(got, expected);
    }
}

#[test]
fn test_seek() {
    let fs = mount(fixture());
    let file = match fs.open("GPL_3_0.TXT").unwrap().unwrap() {
        DirectoryEntry::File(file) => file,
        _ => panic!("Not a file"),
    };
    let mut reader = file.read();
    // Seeking past end-of-file succeeds; the next read returns zero bytes.
    assert_eq!(reader.seek(SeekFrom::End(100)).unwrap(), 5100);
    let mut buf = vec![0u8; 16];
    assert_eq!(reader.read(&mut buf).unwrap(), 0);
    // A negative absolute position is a fatal error.
    assert!(reader.seek(SeekFrom::Start(0)).is_ok());
    assert!(reader.seek(SeekFrom::Current(-1)).is_err());
    assert!(reader.seek(SeekFrom::End(-6000)).is_err());
    // Seek then read picks up mid-file content.
    assert_eq!(reader.seek(SeekFrom::Start(4998)).unwrap(), 4998);
    let n = reader.read(&mut buf).unwrap();
    assert_eq!(n, 2);
    let expected = fixture_file_content();
    assert_eq!(&buf[..2], &expected[4998..]);
}

#[test]
fn test_mount_bad_magic() {
    let mut img = fixture();
    img[16 * BLOCK + 1] = b'X';
    let err = mount_err(img);
    assert!(matches!(err, ISOError::InvalidFs(_)));
}

#[test]
fn test_mount_bad_version() {
    let mut img = fixture();
    img[16 * BLOCK + 6] = 2;
    let err = mount_err(img);
    assert!(matches!(err, ISOError::InvalidFs(_)));
}

#[test]
fn test_mount_no_primary() {
    // The terminator comes first: no Primary descriptor is ever seen.
    let mut img = fixture();
    let term = terminator();
    img[16 * BLOCK..17 * BLOCK].copy_from_slice(&term);
    let err = mount_err(img);
    assert_eq!(err, ISOError::InvalidFs("No primary volume descriptor"));
}

#[test]
fn test_mount_bad_block_size() {
    let mut img = fixture();
    // Rewrite the logical block size field of the Primary descriptor.
    let off = 16 * BLOCK + 128;
    img[off..off + 2].copy_from_slice(&1024u16.to_le_bytes());
    img[off + 2..off + 4].copy_from_slice(&1024u16.to_be_bytes());
    let err = mount_err(img);
    assert_eq!(err, ISOError::InvalidFs("Block size not 2048"));
}

#[test]
fn test_mount_truncated_image() {
    let mut img = fixture();
    img.truncate(16 * BLOCK + 100);
    let err = mount_err(img);
    assert_eq!(err, ISOError::ReadSize(2048, 100));
}

#[test]
fn test_open_through_file_is_none() {
    let fs = mount(fixture());
    // A non-final segment that names a file resolves to nothing.
    assert!(fs.open("GPL_3_0.TXT/inner").unwrap().is_none());
}

#[test]
fn test_joliet_resolution() {
    let fs = mount(joliet_fixture());
    // The Joliet root is consulted first: the long name resolves...
    let entry = fs.open("Long Name.txt").unwrap().unwrap();
    assert_eq!(entry.identifier(), "Long Name.txt");
    // ...and a name only the Primary tree holds still falls back.
    let entry = fs.open("LONGNAME.TXT").unwrap().unwrap();
    assert_eq!(entry.identifier(), "LONGNAME.TXT");
    match entry {
        DirectoryEntry::File(f) => {
            assert_eq!(read_all(&f, 64), b"joliet file body");
            assert_eq!(f.version, 1);
        },
        _ => panic!("Not a file"),
    }
}

#[test]
fn test_file_version_and_dot_strip() {
    let fs = mount(fixture());
    match fs.open("a/b/c/200").unwrap().unwrap() {
        DirectoryEntry::File(f) => {
            assert_eq!(f.identifier, "200");
            assert_eq!(f.version, 1);
        },
        _ => panic!("Not a file"),
    }
}

#[test]
fn test_directory_metadata() {
    let fs = mount(fixture());
    assert_eq!(fs.block_size(), 2048);
    assert_eq!(fs.root.block_count(), 1);
    let t = fs.root.time();
    assert_eq!(t.year, 80);
    assert_eq!(t.month, 1);
    assert_eq!(t.day, 1);
    assert_eq!(fs.volume_set_identifier(), "TEST VOLUME SET");
}

#[test]
fn test_both_endian_fields() {
    let bytes = [0x34u8, 0x12, 0x12, 0x34, 0x78, 0x56, 0x34, 0x12, 0x12, 0x34, 0x56, 0x78];
    assert_eq!(both_endian16(&bytes, 0), 0x1234);
    assert_eq!(both_endian32(&bytes, 4), 0x12345678);
    let be16 = BothEndian16::from_bytes(&bytes, 0);
    assert_eq!(be16.get(), 0x1234);
    let be32 = BothEndian32::from_bytes(&bytes, 4);
    assert_eq!(be32.get(), 0x12345678);
}

#[test]
fn test_date_time_decoders() {
    // Valid binary timestamp: 1999-12-31 23:59:58, offset 4 quarter-hours.
    let b = [99u8, 12, 31, 23, 59, 58, 4];
    let dt = date_time(&b, 0);
    assert_eq!(
        (dt.year, dt.month, dt.day, dt.hour, dt.minute, dt.second, dt.gmt_offset),
        (99, 12, 31, 23, 59, 58, 4)
    );
    // Month 0 cannot be a date: the decoder falls back to the epoch default.
    let b = [99u8, 0, 31, 23, 59, 58, 4];
    let dt = date_time(&b, 0);
    assert_eq!((dt.year, dt.month, dt.day), (0, 1, 1));
    // ASCII form.
    let a = b"1999123123595899\x04";
    let dt = date_time_ascii(a, 0).unwrap();
    assert_eq!((dt.year, dt.month, dt.day), (1999, 12, 31));
    assert_eq!((dt.hour, dt.minute, dt.second, dt.centisecond), (23, 59, 58, 99));
    // A non-digit in a numeric field is an integer-parse error.
    let a = b"19x9123123595899\x04";
    assert_eq!(date_time_ascii(a, 0).unwrap_err(), ISOError::ParseInt);
}

#[test]
fn test_identifier_to_string() {
    assert_eq!(iso9660::identifier_to_string(b"HELLO   ").unwrap(), "HELLO");
    assert_eq!(iso9660::identifier_to_string(b"   ").unwrap(), "");
    assert_eq!(iso9660::identifier_to_string(b"A B ").unwrap(), "A B");
    // A two-byte UTF-8 sequence decodes to one character.
    assert_eq!(iso9660::identifier_to_string(&[0xc3, 0x84]).unwrap(), "\u{c4}");
    assert_eq!(iso9660::identifier_to_string(&[0xff, 0xfe]).unwrap_err(), ISOError::Utf8);
}

#[test]
fn test_empty_file_reads_zero() {
    let mut img = fixture();
    // Give the root an extra empty file by rebuilding its block.
    let root = pack_directory(
        &[
            record(20, 2048, 0x02, &[0]),
            record(20, 2048, 0x02, &[1]),
            record(30, 0, 0x00, b"EMPTY.DAT;1"),
        ],
        1,
    );
    img[20 * BLOCK..21 * BLOCK].copy_from_slice(&root);
    let fs = mount(img);
    match fs.open("empty.dat").unwrap().unwrap() {
        DirectoryEntry::File(f) => {
            assert_eq!(f.size(), 0);
            let mut reader = f.read();
            let mut buf = vec![0u8; 8];
            assert_eq!(reader.read(&mut buf).unwrap(), 0);
        },
        _ => panic!("Not a file"),
    }
}

#[test]
fn test_malformed_directory_record() {
    let mut img = fixture();
    // An odd record length in the root directory is a structural violation.
    img[20 * BLOCK] = 35;
    let fs = mount(img);
    let mut iter = fs.root.contents();
    assert!(iter.next().unwrap().is_err());
}

#[test]
fn test_file_identifier_missing_version() {
    let mut img = fixture();
    let root = pack_directory(
        &[
            record(20, 2048, 0x02, &[0]),
            record(20, 2048, 0x02, &[1]),
            record(30, 16, 0x00, b"NOVERSION.TXT"),
        ],
        1,
    );
    img[20 * BLOCK..21 * BLOCK].copy_from_slice(&root);
    let fs = mount(img);
    let mut iter = fs.root.contents();
    iter.next().unwrap().unwrap();
    iter.next().unwrap().unwrap();
    match iter.next().unwrap() {
        Err(e) => assert!(matches!(e, ISOError::InvalidFs(_))),
        Ok(_) => panic!("expected a malformed-record error"),
    }
}

#[test]
fn test_joliet_bad_ucs2_identifier() {
    let mut img = joliet_fixture();
    // An odd-length Joliet identifier cannot be UCS-2: iteration fails with
    // a text-decode error.
    let jroot = pack_directory(
        &[
            record(21, 2048, 0x02, &[0]),
            record(21, 2048, 0x02, &[1]),
            record(30, 16, 0x00, &[0x00, 0x41, 0xff]),
        ],
        1,
    );
    img[21 * BLOCK..22 * BLOCK].copy_from_slice(&jroot);
    let fs = mount(img);
    let dir = match fs.open("").unwrap().unwrap() {
        DirectoryEntry::Directory(d) => d,
        _ => panic!("Not a directory"),
    };
    let mut iter = dir.contents();
    iter.next().unwrap().unwrap();
    iter.next().unwrap().unwrap();
    match iter.next().unwrap() {
        Err(e) => assert_eq!(e, ISOError::Utf16),
        Ok(_) => panic!("expected a UCS-2 decode error"),
    }
}

#[test]
fn test_file_version_not_numeric() {
    let mut img = fixture();
    let root = pack_directory(
        &[
            record(20, 2048, 0x02, &[0]),
            record(20, 2048, 0x02, &[1]),
            record(30, 16, 0x00, b"BAD.TXT;X1"),
        ],
        1,
    );
    img[20 * BLOCK..21 * BLOCK].copy_from_slice(&root);
    let fs = mount(img);
    let mut iter = fs.root.contents();
    iter.next().unwrap().unwrap();
    iter.next().unwrap().unwrap();
    match iter.next().unwrap() {
        Err(e) => assert_eq!(e, ISOError::ParseInt),
        Ok(_) => panic!("expected a version parse error"),
    }
}

#[test]
fn test_descriptor_table_fields() {
    let root_rec34 = record(20, 2048, 0x02, &[0]);
    let pvd = descriptor(1, &[0u8; 32], &root_rec34, 33);
    let table = iso9660::descriptor_table(&pvd).unwrap();
    assert_eq!(table.volume_space_size, 33);
    assert_eq!(table.volume_set_size, 1);
    assert_eq!(table.volume_sequence_number, 1);
    assert_eq!(table.logical_block_size, 2048);
    assert_eq!(table.character_encoding, iso9660::CharacterEncoding::Iso9660);
    assert_eq!(table.volume_set_identifier, "TEST VOLUME SET");
    assert_eq!(table.root_directory_entry.extent_loc, 20);
    assert_eq!(table.root_directory_entry.extent_length, 2048);
    assert_eq!(table.creation_time.year, 1980);
    assert_eq!(table.creation_time.month, 1);
    assert_eq!(table.file_structure_version, 1);
}

#[test]
fn test_fileref_read_at() {
    let img = fixture();
    let expected = &img[16 * BLOCK..17 * BLOCK];
    let fr = iso9660::FileRef::new(MemoryReader::new(img.clone()));
    let mut buf = vec![0u8; 2048];
    let n = fr.read_at(&mut buf, 16).unwrap();
    assert_eq!(n, 2048);
    assert_eq!(&buf[..], expected);
    // A clone reads the same source.
    let fr2 = fr.clone();
    let mut buf2 = vec![0u8; 2048];
    assert_eq!(fr2.read_at(&mut buf2, 16).unwrap(), 2048);
    assert_eq!(buf, buf2);
    // Past the end of the image: zero bytes, not an error.
    let blocks = (img.len() / BLOCK) as u64;
    assert_eq!(fr.read_at(&mut buf, blocks + 5).unwrap(), 0);
}

#[test]
fn test_directory_record_parser() {
    let mut blk = vec![0u8; 2048];
    let rec = record(7, 4096, 0x02, b"SUBDIR");
    blk[..rec.len()].copy_from_slice(&rec);
    let (header, id) =
        iso9660::DirectoryEntryHeader::parse(&blk, 0, iso9660::CharacterEncoding::Iso9660)
            .unwrap();
    assert_eq!(id, "SUBDIR");
    assert_eq!(header.length, 40);
    assert_eq!(header.extent_loc, 7);
    assert_eq!(header.extent_length, 4096);
    assert_eq!(header.time.year, 80);
    assert!(header.file_flags.directory());
    assert!(!header.file_flags.associated_file());
    assert_eq!(header.volume_sequence_number, 1);
    // An odd length is a structural violation.
    blk[0] = 41;
    let err = iso9660::directory_entry(&blk, 0, iso9660::CharacterEncoding::Iso9660).unwrap_err();
    assert!(matches!(err, ISOError::InvalidFs(_)));
}

#[test]
fn test_volume_descriptor_dispatch() {
    let term = terminator();
    match iso9660::VolumeDescriptor::parse(&term).unwrap().unwrap() {
        iso9660::VolumeDescriptor::VolumeDescriptorSetTerminator => {}
        _ => panic!("expected the terminator variant"),
    }
    // An unknown type byte is skipped, not an error.
    let mut unk = terminator();
    unk[0] = 77;
    assert!(iso9660::VolumeDescriptor::parse(&unk).unwrap().is_none());
    // A bad tag is fatal.
    let mut bad = terminator();
    bad[3] = b'Z';
    assert!(matches!(
        iso9660::VolumeDescriptor::parse(&bad).unwrap_err(),
        ISOError::InvalidFs(_)
    ));
}

#[test]
fn test_character_encoding_detection() {
    let mut esc = [0u8; 32];
    assert_eq!(
        iso9660::CharacterEncoding::parse(&esc, 0),
        iso9660::CharacterEncoding::Iso9660
    );
    esc[..3].copy_from_slice(&[0x25, 0x2f, 0x40]);
    assert_eq!(
        iso9660::CharacterEncoding::parse(&esc, 0),
        iso9660::CharacterEncoding::Ucs2Level1
    );
    esc[2] = 0x43;
    assert_eq!(
        iso9660::CharacterEncoding::parse(&esc, 0),
        iso9660::CharacterEncoding::Ucs2Level2
    );
    esc[2] = 0x45;
    assert_eq!(
        iso9660::CharacterEncoding::parse(&esc, 0),
        iso9660::CharacterEncoding::Ucs2Level3
    );
    // Unrecognized content falls back to plain ISO 9660, not an error.
    esc[0] = 0x41;
    assert_eq!(
        iso9660::CharacterEncoding::parse(&esc, 0),
        iso9660::CharacterEncoding::Iso9660
    );
}

#[test]
fn test_open_no_segments_is_root() {
    let fs = mount(fixture());
    for path in ["", "/", "///"] {
        match fs.open(path).unwrap().unwrap() {
            DirectoryEntry::Directory(d) => assert_eq!(d.identifier, "."),
            _ => panic!("expected the root directory"),
        }
    }
}

#[test]
fn test_empty_directory() {
    let mut img = fixture();
    // A directory whose extent is empty: zero blocks to iterate.
    let root = pack_directory(
        &[
            record(20, 2048, 0x02, &[0]),
            record(20, 2048, 0x02, &[1]),
            record(27, 0, 0x02, b"EMPTYDIR"),
        ],
        1,
    );
    img[20 * BLOCK..21 * BLOCK].copy_from_slice(&root);
    let fs = mount(img);
    let dir = match fs.open("emptydir").unwrap().unwrap() {
        DirectoryEntry::Directory(d) => d,
        _ => panic!("Not a directory"),
    };
    assert_eq!(dir.block_count(), 0);
    assert!(dir.find("anything").unwrap().is_none());
    let mut iter = dir.contents();
    assert!(iter.next().is_none());
}

#[test]
fn test_read_empty_destination() {
    let fs = mount(fixture());
    let file = match fs.open("GPL_3_0.TXT").unwrap().unwrap() {
        DirectoryEntry::File(f) => f,
        _ => panic!("Not a file"),
    };
    let mut reader = file.read();
    let mut empty: Vec<u8> = Vec::new();
    assert_eq!(reader.read(&mut empty).unwrap(), 0);
}
