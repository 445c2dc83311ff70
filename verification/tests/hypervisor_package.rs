use smoothie::hypervisor::package::{validate_archive, validate_archive_with_limits, validate_path};
use tar::{Builder, Header};

fn append_entry(builder: &mut Builder<Vec<u8>>, path: &[u8], type_flag: u8, mode: u32, contents: &[u8]) {
    assert!(path.len() <= 100);
    let mut header = Header::new_gnu();
    header.set_mode(mode);
    header.set_size(contents.len() as u64);
    {
        let bytes = header.as_mut_bytes();
        bytes[..100].fill(0);
        bytes[..path.len()].copy_from_slice(path);
        bytes[156] = type_flag;
    }
    header.set_cksum();
    builder.append(&header, contents).unwrap();
}

fn build_archive(entries: &[(&[u8], u8, u32, &[u8])]) -> Vec<u8> {
    let mut builder = Builder::new(Vec::new());
    for &(path, type_flag, mode, contents) in entries {
        append_entry(&mut builder, path, type_flag, mode, contents);
    }
    builder.into_inner().unwrap()
}

fn valid_main() -> (&'static [u8], u8, u32, &'static [u8]) {
    (b"main", b'0', 0o755, b"#!/bin/sh\n")
}

#[test]
fn accepts_safe_archive_with_executable_root_main() {
    let archive = build_archive(&[
        valid_main(),
        (b"assets/", b'5', 0o755, b""),
        (b"assets/message.txt", b'0', 0o644, b"hello"),
    ]);

    assert!(validate_archive(&archive).is_ok());
}

#[test]
fn rejects_absolute_and_parent_paths() {
    for path in [b"/main".as_slice(), b"bin/../main".as_slice()] {
        let archive = build_archive(&[(path, b'0', 0o755, b"main")]);
        let error = validate_archive(&archive).err().unwrap().to_string();
        assert!(
            error.contains("absolute") || error.contains("contains .."),
            "unexpected error for {path:?}: {error}"
        );
    }
}

#[test]
fn rejects_links_and_special_entries() {
    for (type_flag, description) in [
        (b'1', "hard link"),
        (b'2', "symbolic link"),
        (b'3', "character device"),
        (b'4', "block device"),
        (b'6', "fifo"),
    ] {
        let archive = build_archive(&[valid_main(), (b"unsafe", type_flag, 0o644, b"")]);
        let error = validate_archive(&archive).err().unwrap().to_string();
        assert!(
            error.contains("not a regular file or directory"),
            "{description} produced unexpected error: {error}"
        );
    }
}

#[test]
fn requires_root_main_to_be_regular_and_executable() {
    let missing = build_archive(&[(b"bin/main", b'0', 0o755, b"main")]);
    assert!(validate_archive(&missing).err().unwrap().to_string().contains("root"));

    let directory = build_archive(&[(b"main", b'5', 0o755, b"")]);
    assert!(validate_archive(&directory).err().unwrap().to_string().contains("not a regular file"));

    let not_executable = build_archive(&[(b"main", b'0', 0o644, b"main")]);
    assert!(validate_archive(&not_executable).err().unwrap().to_string().contains("not executable"));
}

#[test]
fn enforces_entry_and_extracted_size_limits() {
    let two_entries = build_archive(&[valid_main(), (b"asset", b'0', 0o644, b"x")]);
    assert!(validate_archive_with_limits(&two_entries, 1, u64::MAX)
        .err()
        .unwrap()
        .to_string()
        .contains("more than 1 entries"));

    let oversized = build_archive(&[valid_main(), (b"asset", b'0', 0o644, b"12345")]);
    assert!(validate_archive_with_limits(&oversized, usize::MAX, 12)
        .err()
        .unwrap()
        .to_string()
        .contains("extracts to more than 12 bytes"));
}

#[test]
fn rejects_duplicate_normalized_paths() {
    let archive = build_archive(&[valid_main(), (b"./main", b'0', 0o755, b"other")]);
    assert!(validate_archive(&archive).err().unwrap().to_string().contains("duplicate path"));
}

#[test]
fn rejects_sparse_pax_metadata() {
    let mut builder = Builder::new(Vec::new());
    builder
        .append_pax_extensions([("GNU.sparse.realsize", b"536870912".as_slice())])
        .unwrap();
    append_entry(&mut builder, b"main", b'0', 0o755, b"main");
    let archive = builder.into_inner().unwrap();

    assert!(validate_archive(&archive).err().unwrap().to_string().contains("sparse metadata"));
}

#[test]
fn normalizes_safe_aliases_of_entry_paths() {
    assert_eq!(validate_path(b"./assets//message.txt").ok().unwrap(), b"assets/message.txt".to_vec());
    assert_eq!(validate_path(b"assets/./a/").ok().unwrap(), b"assets/a".to_vec());
    assert_eq!(validate_path(b"main").ok().unwrap(), b"main".to_vec());
}

#[test]
fn names_each_path_refusal() {
    let message = |p: &[u8]| validate_path(p).err().unwrap().to_string();
    assert_eq!(message(b""), "archive entry has an empty path");
    assert_eq!(message(b"/etc"), "archive entry path \"/etc\" is absolute");
    assert_eq!(message(b"a\0b"), "archive entry path \"a\\0b\" contains a NUL byte");
    assert_eq!(message(b"a\\b"), "archive entry path \"a\\\\b\" contains a non-POSIX path separator");
    assert_eq!(message(b"a/../b"), "archive entry path \"a/../b\" contains ..");
    assert_eq!(message(b"./."), "archive entry path \"./.\" does not name a file or directory");
}

#[test]
fn refuses_oversized_archives_and_garbage() {
    let big = vec![0u8; 268435457];
    assert_eq!(
        validate_archive(&big).err().unwrap().to_string(),
        "archive is 268435457 bytes; maximum is 268435456 bytes"
    );
    let empty: Vec<u8> = Vec::new();
    assert_eq!(
        validate_archive(&empty).err().unwrap().to_string(),
        "archive must contain an executable regular file named main at its root"
    );
}

#[test]
fn accepted_paths_validate_to_themselves() {
    for raw in [&b"./a//b/"[..], b"assets/./x.txt", b"main", b"a/b/c"] {
        let once = validate_path(raw).ok().unwrap();
        let twice = validate_path(&once).ok().unwrap();
        assert_eq!(once, twice);
    }
    assert_eq!(validate_path(b"./a//b/").ok().unwrap(), b"a/b".to_vec());
}
