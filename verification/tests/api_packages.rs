use smoothie::api::packages::{
    packages_newest_first, packages_to_prune, safe_package_filename, validate_archive, validate_archive_path,
    BlobStatus, Package, SERVICE_BLOB_CAP_BYTES,
};

fn package(id: &str, size_bytes: u64, status: BlobStatus) -> Package {
    Package {
        id: id.into(),
        service_id: "s".into(),
        app_id: "a".into(),
        owner: 1,
        filename: format!("{id}.tar"),
        sha256: "hash".into(),
        size_bytes,
        blob_status: status,
        created_at: id.into(),
        pruned_at: None,
        deleted_at: None,
    }
}

fn write_tar(entries: &[(&str, &[u8], u32)]) -> Vec<u8> {
    let mut builder = tar::Builder::new(Vec::new());
    for (path, bytes, mode) in entries {
        let mut header = tar::Header::new_gnu();
        header.set_size(bytes.len() as u64);
        header.set_mode(*mode);
        header.set_cksum();
        builder.append_data(&mut header, path, *bytes).unwrap();
    }
    builder.into_inner().unwrap()
}

#[test]
fn sanitizes_original_upload_filenames() {
    assert_eq!(safe_package_filename(Some(r#"C:\\builds\\smoothie app.tar"#)), "smoothie app.tar");
    assert_eq!(safe_package_filename(Some("../../release.tar")), "release.tar");
    assert_eq!(safe_package_filename(Some("..")), "package.tar");
    assert_eq!(safe_package_filename(None), "package.tar");
}

#[test]
fn validates_executable_root_main_and_hashes_archive() {
    let file = write_tar(&[("main", b"#!/bin/sh\n", 0o755), ("assets/a", b"a", 0o644)]);
    let info = validate_archive(&file).unwrap();
    assert_eq!(info.entries, 2);
    assert_eq!(info.sha256.len(), 64);
    assert!(info.size_bytes > 0);
}

#[test]
fn rejects_missing_or_non_executable_main() {
    let missing = write_tar(&[("bin/main", b"x", 0o755)]);
    assert!(validate_archive(&missing).is_err());
    let not_executable = write_tar(&[("main", b"x", 0o644)]);
    assert!(validate_archive(&not_executable).is_err());
}

#[test]
fn rejects_unsafe_paths() {
    assert!(validate_archive_path(b"../main").is_err());
    assert!(validate_archive_path(b"/main").is_err());
    assert!(validate_archive_path(b"./main").is_err());
    assert!(validate_archive_path(b"main").is_ok());
}

#[test]
fn package_lists_are_newest_first() {
    let packages = vec![package("old", 1, BlobStatus::Available), package("new", 1, BlobStatus::Available)];
    let ids: Vec<_> = packages_newest_first(packages).into_iter().map(|package| package.id).collect();
    assert_eq!(ids, vec!["new", "old"]);
}

#[test]
fn pruning_is_oldest_first_and_never_prunes_active() {
    let packages = vec![
        package("old", 100_000_000, BlobStatus::Available),
        package("active", 150_000_000, BlobStatus::Available),
        package("already-pruned", 100_000_000, BlobStatus::Pruned),
    ];
    assert_eq!(packages_to_prune(&packages, "active"), vec!["old"]);
}

#[test]
fn cap_is_exactly_two_hundred_mebibytes() {
    assert_eq!(SERVICE_BLOB_CAP_BYTES, 209_715_200);
    let packages = vec![
        package("old", 1, BlobStatus::Available),
        package("active", SERVICE_BLOB_CAP_BYTES, BlobStatus::Available),
    ];
    assert_eq!(packages_to_prune(&packages, "active"), vec!["old"]);
}

#[test]
fn archive_hash_is_the_sha256_of_the_bytes() {
    let file = write_tar(&[("main", b"#!/bin/sh\n", 0o755)]);
    let info = validate_archive(&file).unwrap();
    assert_eq!(info.size_bytes, file.len() as u64);
    assert!(info.sha256.chars().all(|c| c.is_ascii_hexdigit() && !c.is_ascii_uppercase()));
    let empty_digest_archive = validate_archive(&[]);
    assert!(empty_digest_archive.is_err());
}

#[test]
fn pruning_stops_as_soon_as_the_cap_is_met() {
    let packages = vec![
        package("p1", 80_000_000, BlobStatus::Available),
        package("p2", 80_000_000, BlobStatus::Available),
        package("p3", 80_000_000, BlobStatus::Available),
        package("p4", 80_000_000, BlobStatus::Available),
    ];
    assert_eq!(packages_to_prune(&packages, "p4"), vec!["p1", "p2"]);
    let small = vec![package("p1", 1, BlobStatus::Available)];
    assert!(packages_to_prune(&small, "p1").is_empty());
}

#[test]
fn unsafe_path_messages_show_the_path() {
    assert_eq!(validate_archive_path(b"../main").unwrap_err(), "unsafe tar path: ../main");
}

use sha2::Digest;
use smoothie::api::packages::{
    check_deletable, check_package_owner, mark_deleted, mark_pruned, new_package_record, order_package_history,
    record_package_id, ArchiveInfo,
};
use smoothie::api::services::Service;

fn owner_service(package_ids: &[&str], active: Option<&str>) -> Service {
    Service {
        id: "s".into(),
        app_id: "a".into(),
        owner: 1,
        name: "api".into(),
        position_x: 0,
        position_y: 0,
        container_port: 3000,
        argv: Vec::new(),
        active_package_id: active.map(|s| s.to_string()),
        active_deployment_id: None,
        package_ids: package_ids.iter().map(|s| s.to_string()).collect(),
        created_at: "t".into(),
        updated_at: "t".into(),
    }
}

#[test]
fn archive_digest_is_sha256_of_the_upload() {
    let file = write_tar(&[("main", b"#!/bin/sh\n", 0o755)]);
    let info = validate_archive(&file).unwrap();
    let expected: String = sha2::Sha256::digest(&file).iter().map(|b| format!("{b:02x}")).collect();
    assert_eq!(info.sha256, expected);
}

#[test]
fn package_records_follow_their_blob() {
    let service = owner_service(&[], Some("p1"));
    let archive = ArchiveInfo { sha256: "h".into(), size_bytes: 5, entries: 1 };
    let mut p = new_package_record(&service, "p2".into(), "app.tar".into(), archive, "t1".into());
    assert_eq!((p.id.as_str(), p.service_id.as_str(), p.owner, p.size_bytes), ("p2", "s", 1, 5));
    assert_eq!(p.blob_status, BlobStatus::Available);
    assert!(check_package_owner(&p, &service).is_ok());
    mark_pruned(&mut p, "t2".into());
    assert_eq!(p.blob_status, BlobStatus::Pruned);
    assert_eq!(p.pruned_at.as_deref(), Some("t2"));
    assert!(!mark_deleted(&mut p, "t3".into()));
    assert_eq!(p.deleted_at, None);
    let mut q = package("q", 1, BlobStatus::Available);
    assert!(mark_deleted(&mut q, "t3".into()));
    assert_eq!(q.blob_status, BlobStatus::Deleted);
    let e = check_deletable(&service, "p1").err().unwrap();
    assert_eq!(e.status, 409);
    assert!(check_deletable(&service, "p2").is_ok());
    let mut other = package("o", 1, BlobStatus::Available);
    other.service_id = "s2".into();
    assert_eq!(check_package_owner(&other, &service).err().unwrap().message, "package not found");
}

#[test]
fn recording_a_package_twice_lists_it_once() {
    let mut service = owner_service(&["p1"], None);
    record_package_id(&mut service, "p2");
    record_package_id(&mut service, "p2");
    record_package_id(&mut service, "p1");
    assert_eq!(service.package_ids, vec!["p1", "p2"]);
}

#[test]
fn history_follows_the_service_then_age() {
    let service = owner_service(&["p3", "p1", "missing"], None);
    let mut stray = package("p9", 1, BlobStatus::Available);
    stray.app_id = "other".into();
    let mut newer_p1 = package("p1", 7, BlobStatus::Pruned);
    newer_p1.created_at = "z".into();
    let stored = vec![
        package("p1", 1, BlobStatus::Available),
        package("u2", 1, BlobStatus::Available),
        package("p3", 1, BlobStatus::Available),
        stray,
        package("u1", 1, BlobStatus::Available),
        newer_p1,
    ];
    let history = order_package_history(stored, &service);
    let ids: Vec<&str> = history.iter().map(|p| p.id.as_str()).collect();
    assert_eq!(ids, vec!["p3", "p1", "u1", "u2"]);
    assert_eq!(history[1].size_bytes, 7);
}

use smoothie::api::packages::{blob_key, key_service_packages};

#[test]
fn package_keys_are_scoped() {
    assert_eq!(key_service_packages(7, "a", "s"), "user:7:app:a:service:s:packages");
    assert_eq!(blob_key("p1"), "p1.tar");
}

use smoothie::api::packages::PackageUpload;

#[test]
fn accepted_uploads_become_available_package_records() {
    let service = owner_service(&[], None);
    let content = write_tar(&[("main", b"#!/bin/sh\n", 0o755)]);
    let expected_hash = format!("{:x}", sha2::Sha256::digest(&content));
    let upload = PackageUpload { name: Some("dir/My App.tar".into()), content: content.clone() };
    let package = upload.accept(&service, "p9".into(), "now".into()).unwrap();
    assert_eq!(package.id, "p9");
    assert_eq!(package.filename, "My App.tar");
    assert_eq!(package.sha256, expected_hash);
    assert_eq!(package.size_bytes, content.len() as u64);
    assert_eq!(package.service_id, "s");
    assert_eq!(package.blob_status, BlobStatus::Available);
    assert_eq!(package.created_at, "now");

    let unnamed = PackageUpload { name: None, content };
    assert_eq!(unnamed.accept(&service, "p10".into(), "now".into()).unwrap().filename, "package.tar");
}

#[test]
fn refused_uploads_are_bad_requests() {
    let service = owner_service(&[], None);
    let empty = PackageUpload { name: Some("x.tar".into()), content: Vec::new() };
    let error = empty.accept(&service, "p".into(), "now".into()).err().unwrap();
    assert_eq!(error.status, 400);
    assert_eq!(error.message, "package archive is empty");
    let no_main = PackageUpload { name: None, content: write_tar(&[("other", b"x", 0o755)]) };
    let error = no_main.accept(&service, "p".into(), "now".into()).err().unwrap();
    assert_eq!(error.status, 400);
    assert_eq!(error.message, "tar must contain an executable file named main at its root");
}

#[test]
fn deleting_a_blob_keeps_the_rest_of_the_record() {
    let mut q = package("q", 77, BlobStatus::Available);
    assert!(mark_deleted(&mut q, "t9".into()));
    assert_eq!(q.blob_status, BlobStatus::Deleted);
    assert_eq!(q.deleted_at.as_deref(), Some("t9"));
    assert_eq!((q.id.as_str(), q.sha256.as_str(), q.size_bytes, q.created_at.as_str()), ("q", "hash", 77, "q"));
    assert_eq!(q.filename, "q.tar");
}

#[test]
fn accepted_archives_carry_a_sixty_four_digit_hash() {
    let info = validate_archive(&write_tar(&[("main", b"#!/bin/sh\n", 0o755), ("assets/a", b"a", 0o644)])).unwrap();
    assert_eq!(info.entries, 2);
    assert_eq!(info.sha256.len(), 64);
    assert!(info.size_bytes > 0);
}

use smoothie::api::packages::delete_package;

#[test]
fn deleting_the_active_package_is_refused_before_any_change() {
    let service = owner_service(&["p1", "q"], Some("p1"));
    let mut active = package("p1", 5, BlobStatus::Available);
    let e = delete_package(&service, "p1", &mut active, "t".into()).err().unwrap();
    assert_eq!((e.status, e.message.as_str()), (409, "the active package cannot be deleted; activate another package first"));
    assert_eq!((active.blob_status, active.deleted_at.clone()), (BlobStatus::Available, None));

    let mut q = package("q", 9, BlobStatus::Available);
    assert_eq!(delete_package(&service, "q", &mut q, "t".into()).ok(), Some(true));
    assert_eq!((q.blob_status, q.deleted_at.as_deref(), q.size_bytes), (BlobStatus::Deleted, Some("t"), 9));
    let mut pruned = package("r", 9, BlobStatus::Pruned);
    assert_eq!(delete_package(&service, "r", &mut pruned, "t".into()).ok(), Some(false));
    assert_eq!(pruned.deleted_at, None);
}

use smoothie::api::packages::validate_upload_listing;
use smoothie::tarball::{PaxInfo, TarEntry, TarListing};

fn listed(path: &str, type_byte: u8, mode: u32, size: u64) -> TarEntry {
    TarEntry {
        path: path.as_bytes().to_vec(),
        pax: PaxInfo::Absent,
        type_byte,
        size,
        header_size: Ok(size),
        mode: Ok(mode),
        body: Ok(()),
    }
}

#[test]
fn upload_checks_read_the_listing() {
    let good = TarListing {
        open_error: None,
        entries: vec![listed("main", b'0', 0o755, 10), listed("assets/", b'5', 0o755, 0)],
        stream_error: None,
    };
    assert_eq!(validate_upload_listing(&good).ok(), Some(2));

    let not_executable = TarListing { open_error: None, entries: vec![listed("main", b'0', 0o644, 1)], stream_error: None };
    assert_eq!(validate_upload_listing(&not_executable).err().unwrap(), "root main must be executable");

    let link = TarListing { open_error: None, entries: vec![listed("l", b'2', 0o777, 0)], stream_error: None };
    assert_eq!(validate_upload_listing(&link).err().unwrap(), "tar links, devices, and special entries are not allowed: l");

    let cut = TarListing {
        open_error: None,
        entries: vec![listed("main", b'0', 0o755, 1)],
        stream_error: Some("unexpected EOF".into()),
    };
    assert_eq!(validate_upload_listing(&cut).err().unwrap(), "invalid tar entry: unexpected EOF");

    let unopened = TarListing { open_error: Some("bad header".into()), entries: Vec::new(), stream_error: None };
    assert_eq!(validate_upload_listing(&unopened).err().unwrap(), "invalid tar archive: bad header");
}
