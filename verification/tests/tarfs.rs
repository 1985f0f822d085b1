use aether::fs::tarfs::{self, TarError};
use aether::fs::ustar::{parse_size, trimmed_bounds};
use aether::vfs;

fn header(name: &[u8], size_field: &[u8]) -> Vec<u8> {
    let mut h = vec![0u8; 512];
    h[..name.len()].copy_from_slice(name);
    h[124..124 + size_field.len()].copy_from_slice(size_field);
    h
}

fn octal(size: usize) -> Vec<u8> {
    let mut f = format!("{:011o}", size).into_bytes();
    f.push(0);
    f
}

fn file(name: &str, contents: &[u8]) -> Vec<u8> {
    let mut out = header(name.as_bytes(), &octal(contents.len()));
    out.extend_from_slice(contents);
    let padded = (contents.len() + 511) / 512 * 512;
    out.resize(512 + padded, 0);
    out
}

fn sample_archive() -> Vec<u8> {
    let mut a = Vec::new();
    a.extend(file("hello.txt", b"hello"));
    a.extend(file("etc/empty", b""));
    let big: Vec<u8> = (0..600u32).map(|i| (i % 251) as u8).collect();
    a.extend(file("big.bin", &big));
    a.extend(vec![0u8; 1024]);
    a
}

#[test]
fn parses_all_entries() {
    let archive = sample_archive();
    let entries = match tarfs::init(&archive) {
        Ok(es) => es,
        Err(e) => panic!("unexpected error {:?}", e),
    };
    assert_eq!(entries.len(), 3);
    assert_eq!(entries[0].name(), "hello.txt");
    assert_eq!(entries[0].size(), 5);
    assert_eq!(tarfs::read(&entries[0]), b"hello");
    assert_eq!(entries[1].name(), "etc/empty");
    assert_eq!(entries[1].size(), 0);
    assert_eq!(tarfs::read(&entries[1]), b"");
    assert_eq!(entries[2].name(), "big.bin");
    assert_eq!(entries[2].size(), 600);
    assert_eq!(tarfs::read(&entries[2]).len(), 600);
    assert_eq!(tarfs::read(&entries[2])[599], (599 % 251) as u8);
}

#[test]
fn open_finds_first_entry_by_name() {
    let mut archive = Vec::new();
    archive.extend(file("a", b"first"));
    archive.extend(file("b", b"other"));
    archive.extend(file("a", b"second"));
    archive.extend(vec![0u8; 1024]);
    let entries = tarfs::init(&archive).ok().unwrap();
    let found = tarfs::open(&entries, "a").unwrap();
    assert_eq!(tarfs::read(found), b"first");
    let other = tarfs::open(&entries, "b").unwrap();
    assert_eq!(tarfs::read(other), b"other");
    assert!(tarfs::open(&entries, "missing").is_none());
    assert!(tarfs::open(&entries, "").is_none());
    assert!(tarfs::open(&[], "a").is_none());
}

#[test]
fn stops_at_zero_block() {
    let mut archive = Vec::new();
    archive.extend(file("one", b"1"));
    archive.extend(vec![0u8; 512]);
    archive.extend(file("after", b"2"));
    archive.extend(vec![0u8; 512]);
    let entries = tarfs::init(&archive).ok().unwrap();
    assert_eq!(entries.len(), 1);
    assert_eq!(entries[0].name(), "one");
}

#[test]
fn header_needs_room_after_it() {
    // A header that ends exactly at the end of the archive is not read.
    let archive = header(b"last", &octal(0));
    let entries = tarfs::init(&archive).ok().unwrap();
    assert_eq!(entries.len(), 0);
    let mut longer = archive.clone();
    longer.push(0);
    let entries = tarfs::init(&longer).ok().unwrap();
    assert_eq!(entries.len(), 1);
    assert_eq!(entries[0].name(), "last");
}

#[test]
fn empty_archive_has_no_entries() {
    assert_eq!(tarfs::init(&[]).ok().unwrap().len(), 0);
    assert_eq!(tarfs::init(&[0u8; 100]).ok().unwrap().len(), 0);
}

#[test]
fn name_padding_is_trimmed_at_both_ends() {
    let mut name = vec![0u8; 3];
    name.extend_from_slice(b"pad");
    let mut archive = header(&name, &octal(0));
    archive.extend(vec![0u8; 1024]);
    let entries = tarfs::init(&archive).ok().unwrap();
    assert_eq!(entries[0].name(), "pad");
}

#[test]
fn invalid_name_is_an_error() {
    let mut archive = header(&[0xFF, 0xFE, b'x'], &octal(0));
    archive.extend(vec![0u8; 1024]);
    assert_eq!(tarfs::init(&archive).err(), Some(TarError::InvalidName));
}

#[test]
fn invalid_size_digit_is_an_error() {
    let mut archive = header(b"f", b"00000000/12\0");
    archive.extend(vec![0u8; 1024]);
    assert_eq!(tarfs::init(&archive).err(), Some(TarError::InvalidSize));
}

#[test]
fn truncated_data_is_an_error() {
    let mut archive = header(b"f", &octal(100));
    archive.extend(vec![b'x'; 50]);
    assert_eq!(tarfs::init(&archive).err(), Some(TarError::Truncated));
}

#[test]
fn size_field_digits_end_at_space_or_nul() {
    assert_eq!(parse_size(b"17 999999999"), Some(0o17));
    assert_eq!(parse_size(b"\x0012345678901"), Some(0));
    assert_eq!(parse_size(b"777777777777"), Some(0o777777777777));
    // Digits above '7' are taken at face value.
    assert_eq!(parse_size(b"9\0\0\0\0\0\0\0\0\0\0\0"), Some(9));
    assert_eq!(parse_size(b"1!\0\0\0\0\0\0\0\0\0\0"), None);
}

#[test]
fn trimmed_bounds_strip_nul_padding() {
    assert_eq!(trimmed_bounds(b"\0\0ab\0c\0\0"), (2, 6));
    assert_eq!(trimmed_bounds(b"\0\0\0"), (3, 3));
    assert_eq!(trimmed_bounds(b"abc"), (0, 3));
}

#[test]
fn vfs_reads_files_and_opens_first() {
    let archive = sample_archive();
    let files = vfs::init(&archive).ok().unwrap();
    assert_eq!(files.len(), 3);
    let first = vfs::open(&files, "hello.txt").unwrap();
    assert_eq!(vfs::read(first), b"hello");
    assert!(vfs::open(&[], "hello.txt").is_none());
}

#[test]
fn vfs_reports_archive_errors() {
    let mut archive = header(b"f", &octal(100));
    archive.extend(vec![b'x'; 50]);
    assert_eq!(vfs::init(&archive).err(), Some(TarError::Truncated));
}

#[test]
fn bytes_after_the_end_block_are_ignored() {
    let archive = sample_archive();
    let mut extended = archive.clone();
    extended.extend(b"\xff\xfe not a header at all");
    extended.extend(file("late", b"ignored"));
    let before = tarfs::init(&archive).ok().unwrap();
    let after = tarfs::init(&extended).ok().unwrap();
    assert_eq!(before.len(), after.len());
    for (a, b) in before.iter().zip(after.iter()) {
        assert_eq!(a.name(), b.name());
        assert_eq!(a.size(), b.size());
        assert_eq!(tarfs::read(a), tarfs::read(b));
    }
}
