use std::io::Write;

use allure_runs::unzip::{unzip_safely, ExtractError, UnzipLimits};

fn stored() -> zip::write::SimpleFileOptions {
    zip::write::SimpleFileOptions::default().compression_method(zip::CompressionMethod::Stored)
}

fn zip_of(files: &[(&str, &[u8])], dirs: &[&str]) -> Vec<u8> {
    let mut w = zip::ZipWriter::new(std::io::Cursor::new(Vec::new()));
    for (name, data) in files {
        w.start_file(*name, stored()).unwrap();
        w.write_all(data).unwrap();
    }
    for d in dirs {
        w.add_directory(*d, stored()).unwrap();
    }
    w.finish().unwrap().into_inner()
}

fn dest() -> Vec<u8> {
    b"/data/projects/demo/runs/1/allure-results".to_vec()
}

#[test]
fn extracts_file_and_directory_entries() {
    let bytes = zip_of(&[("a/b.txt", b"xyz")], &["c"]);
    let tree = unzip_safely(bytes, &dest(), &UnzipLimits::default()).unwrap();
    assert_eq!(tree.len(), 2);
    assert_eq!(tree[0].path, b"a/b.txt".to_vec());
    assert!(!tree[0].is_dir);
    assert_eq!(tree[0].data, b"xyz".to_vec());
    assert_eq!(tree[1].path, b"c".to_vec());
    assert!(tree[1].is_dir);
    assert!(tree[1].data.is_empty());
}

#[test]
fn empty_archive_extracts_to_empty_tree() {
    let bytes = zip_of(&[], &[]);
    let tree = unzip_safely(bytes, &dest(), &UnzipLimits::default()).unwrap();
    assert!(tree.is_empty());
}

#[test]
fn malformed_container_is_rejected() {
    let r = unzip_safely(b"this is not an archive".to_vec(), &dest(), &UnzipLimits::default());
    assert!(matches!(r, Err(ExtractError::BadArchive { .. })));
}

#[test]
fn traversal_entry_rejects_whole_archive() {
    let bytes = zip_of(&[("../../etc/passwd", b"owned")], &[]);
    let r = unzip_safely(bytes, &dest(), &UnzipLimits::default());
    match r {
        Err(ExtractError::BadEntryPath { name }) => {
            assert_eq!(name, b"../../etc/passwd".to_vec());
        }
        other => panic!("expected BadEntryPath, got {:?}", other),
    }
}

#[test]
fn backslash_traversal_rejected() {
    let bytes = zip_of(&[("..\\..\\etc\\passwd", b"owned")], &[]);
    let r = unzip_safely(bytes, &dest(), &UnzipLimits::default());
    assert!(matches!(r, Err(ExtractError::BadEntryPath { .. })));
}

#[test]
fn interior_traversal_rejected() {
    let bytes = zip_of(&[("a/../../b.txt", b"x")], &[]);
    let r = unzip_safely(bytes, &dest(), &UnzipLimits::default());
    assert!(matches!(r, Err(ExtractError::BadEntryPath { .. })));
}

#[test]
fn absolute_path_rejected() {
    let bytes = zip_of(&[("/etc/passwd", b"x")], &[]);
    let r = unzip_safely(bytes, &dest(), &UnzipLimits::default());
    assert!(matches!(r, Err(ExtractError::BadEntryPath { .. })));
}

#[test]
fn drive_letter_path_rejected() {
    let bytes = zip_of(&[("c:windows", b"x")], &[]);
    let r = unzip_safely(bytes, &dest(), &UnzipLimits::default());
    assert!(matches!(r, Err(ExtractError::BadEntryPath { .. })));
}

#[test]
fn redundant_segments_are_normalized() {
    let bytes = zip_of(&[("a//b/./c.txt", b"ok")], &[]);
    let tree = unzip_safely(bytes, &dest(), &UnzipLimits::default()).unwrap();
    assert_eq!(tree[0].path, b"a/b/c.txt".to_vec());
}

#[test]
fn entry_count_limit_aborts_extraction() {
    let bytes = zip_of(&[("a.txt", b"1"), ("b.txt", b"2"), ("c.txt", b"3")], &[]);
    let mut limits = UnzipLimits::default();
    limits.max_files = 2;
    let r = unzip_safely(bytes, &dest(), &limits);
    match r {
        Err(ExtractError::TooManyEntries { max_files }) => assert_eq!(max_files, 2),
        other => panic!("expected TooManyEntries, got {:?}", other),
    }
}

#[test]
fn declared_size_over_limit_rejected_before_reading() {
    let bytes = zip_of(&[("big.txt", b"0123456789")], &[]);
    let mut limits = UnzipLimits::default();
    limits.max_single_file = 4;
    let r = unzip_safely(bytes, &dest(), &limits);
    match r {
        Err(ExtractError::EntryTooLargeDeclared { name, declared }) => {
            assert_eq!(name, b"big.txt".to_vec());
            assert_eq!(declared, 10);
        }
        other => panic!("expected EntryTooLargeDeclared, got {:?}", other),
    }
}

#[test]
fn falsified_size_header_is_caught_while_streaming() {
    // Store 10 bytes but patch the headers to declare 3, so the declared-size
    // check passes and only the streaming guard can catch the lie.
    let mut bytes = zip_of(&[("big.txt", b"0123456789")], &[]);
    patch_uncompressed_size(&mut bytes, 10, 3);
    let mut limits = UnzipLimits::default();
    limits.max_single_file = 4;
    let r = unzip_safely(bytes, &dest(), &limits);
    match r {
        Err(ExtractError::EntryTooLarge { name }) => assert_eq!(name, b"big.txt".to_vec()),
        other => panic!("expected EntryTooLarge, got {:?}", other),
    }
}

fn patch_uncompressed_size(bytes: &mut [u8], real: u32, fake: u32) {
    let mut patched = 0;
    let mut i = 0;
    while i + 4 <= bytes.len() {
        if bytes[i..i + 4] == [0x50, 0x4b, 0x03, 0x04] {
            let off = i + 22;
            assert_eq!(&bytes[off..off + 4], real.to_le_bytes().as_slice());
            bytes[off..off + 4].copy_from_slice(&fake.to_le_bytes());
            patched += 1;
        }
        if bytes[i..i + 4] == [0x50, 0x4b, 0x01, 0x02] {
            let off = i + 24;
            assert_eq!(&bytes[off..off + 4], real.to_le_bytes().as_slice());
            bytes[off..off + 4].copy_from_slice(&fake.to_le_bytes());
            patched += 1;
        }
        i += 1;
    }
    assert_eq!(patched, 2, "expected one local header and one central entry");
}

#[test]
fn total_uncompressed_limit_aborts() {
    let bytes = zip_of(&[("a.txt", b"01234567"), ("b.txt", b"01234567")], &[]);
    let mut limits = UnzipLimits::default();
    limits.max_single_file = 100;
    limits.max_total_uncompressed = 10;
    let r = unzip_safely(bytes, &dest(), &limits);
    assert!(matches!(r, Err(ExtractError::TotalTooLarge)));
}

#[test]
fn deflated_entries_extract_too() {
    let mut w = zip::ZipWriter::new(std::io::Cursor::new(Vec::new()));
    let opts = zip::write::SimpleFileOptions::default()
        .compression_method(zip::CompressionMethod::Deflated);
    w.start_file("r/result.json", opts).unwrap();
    w.write_all(b"{\"ok\":true}").unwrap();
    let bytes = w.finish().unwrap().into_inner();
    let tree = unzip_safely(bytes, &dest(), &UnzipLimits::default()).unwrap();
    assert_eq!(tree[0].path, b"r/result.json".to_vec());
    assert_eq!(tree[0].data, b"{\"ok\":true}".to_vec());
}
