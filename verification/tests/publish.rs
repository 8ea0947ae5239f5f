//! The publish pipeline end to end: admission, validation, storage with
//! rollback, and the enqueued index mutation.

use std::io::Write;

use cargo_registry::git::Mutation;
use cargo_registry::publish::{CrateUpload, PublishError, Registry};
use cargo_registry::rate_limiter::{BucketStore, RateLimiter};
use cargo_registry::storage::BlobStore;
use cargo_registry::uploaders::{ArchiveError, Uploader};

const SECOND: i64 = 1_000_000;

fn now() -> i64 {
    1_553_029_884_620_401
}

fn test_registry() -> Registry {
    Registry {
        limiter: RateLimiter {
            rate: 60 * SECOND,
            burst: 5,
        },
        buckets: BucketStore::new(),
        max_upload_size: 10 * 1024 * 1024,
        max_unpack_size: 512 * 1024 * 1024,
        next_crate_id: 1,
        crates: Vec::new(),
        versions: Vec::new(),
        version_authors: Vec::new(),
        owners: Vec::new(),
        known_categories: vec![String::from("web-programming")],
        jobs: Vec::new(),
        store: BlobStore::new(),
        uploader: Uploader::Local,
        version_downloads: Vec::new(),
        total_downloads: 0,
    }
}

fn archive_for(name: &str, vers: &str) -> Vec<u8> {
    let mut builder = tar::Builder::new(Vec::new());
    let mut header = tar::Header::new_gnu();
    header.set_path(format!("{}-{}/Cargo.toml", name, vers)).unwrap();
    let manifest = b"[package]\n";
    header.set_size(manifest.len() as u64);
    header.set_cksum();
    builder.append(&header, &manifest[..]).unwrap();
    let tar_bytes = builder.into_inner().unwrap();
    let mut encoder = flate2::write::GzEncoder::new(Vec::new(), flate2::Compression::default());
    encoder.write_all(&tar_bytes).unwrap();
    encoder.finish().unwrap()
}

fn upload_for(name: &str, vers: &str) -> CrateUpload {
    CrateUpload {
        name: String::from(name),
        vers: String::from(vers),
        description: Some(String::from("A package")),
        license: Some(String::from("MIT")),
        license_file: None,
        authors: vec![String::from("someone@example.com")],
        deps: Vec::new(),
        features: Vec::new(),
        categories: Vec::new(),
        readme: None,
        links: None,
    }
}

#[test]
fn publish_stores_the_row_the_blob_and_the_index_job() {
    let mut reg = test_registry();
    let archive = archive_for("pkg", "1.0.0");
    let expected_cksum = hex::encode(openssl::sha::sha256(&archive));

    let published = reg
        .publish(42, upload_for("pkg", "1.0.0"), archive.clone(), now())
        .unwrap();
    assert_eq!(published.name, "pkg");
    assert_eq!(published.vers, "1.0.0");
    assert_eq!(published.cksum, expected_cksum);

    assert_eq!(reg.crates.len(), 1);
    assert_eq!(reg.crates[0].name, "pkg");
    assert_eq!(reg.versions.len(), 1);
    assert_eq!(reg.versions[0].num, "1.0.0");
    assert_eq!(reg.versions[0].cksum, expected_cksum);
    assert_eq!(reg.versions[0].size, archive.len() as u64);
    assert_eq!(reg.version_authors.len(), 1);
    assert_eq!(reg.version_authors[0].1, "someone@example.com");
    assert_eq!(reg.owners.len(), 1);
    assert_eq!(reg.owners[0].owner_id, 42);

    assert_eq!(reg.store.blobs.len(), 1);
    assert_eq!(reg.store.blobs[0].0, "crates/pkg/pkg-1.0.0.crate");
    assert_eq!(reg.store.blobs[0].1, archive);

    assert_eq!(reg.jobs.len(), 1);
    match &reg.jobs[0] {
        Mutation::AddEntry(entry) => {
            assert_eq!(entry.name, "pkg");
            assert_eq!(entry.vers, "1.0.0");
            assert_eq!(entry.cksum, expected_cksum);
            assert_eq!(entry.yanked, Some(false));
        }
        _ => panic!("expected an AddEntry job"),
    }
}

#[test]
fn publishing_the_same_version_twice_is_rejected_without_side_effects() {
    let mut reg = test_registry();
    let archive = archive_for("pkg", "1.0.0");
    reg.publish(42, upload_for("pkg", "1.0.0"), archive.clone(), now())
        .unwrap();
    let blobs_before = reg.store.blobs.len();
    let jobs_before = reg.jobs.len();

    let err = reg
        .publish(42, upload_for("pkg", "1.0.0"), archive, now())
        .unwrap_err();
    assert!(matches!(err, PublishError::DuplicateVersion));
    // No second blob and no second index line.
    assert_eq!(reg.store.blobs.len(), blobs_before);
    assert_eq!(reg.jobs.len(), jobs_before);
    assert_eq!(reg.versions.len(), 1);
}

#[test]
fn failed_readme_upload_deletes_the_archive_blob_and_the_row() {
    let mut reg = test_registry();
    reg.store
        .fail_paths
        .push(String::from("readmes/pkg/pkg-1.0.0.html"));
    let mut upload = upload_for("pkg", "1.0.0");
    upload.readme = Some(b"<p>hello</p>".to_vec());

    let err = reg
        .publish(42, upload, archive_for("pkg", "1.0.0"), now())
        .unwrap_err();
    assert!(matches!(err, PublishError::StorageFailure));
    // The archive blob was stored first, then deleted by its guard.
    assert_eq!(reg.store.blobs.len(), 0);
    assert_eq!(reg.versions.len(), 0);
    assert_eq!(reg.crates.len(), 0);
    assert_eq!(reg.jobs.len(), 0);
}

#[test]
fn readme_blob_is_stored_alongside_the_archive() {
    let mut reg = test_registry();
    let mut upload = upload_for("pkg", "1.0.0");
    upload.readme = Some(b"<p>hello</p>".to_vec());
    reg.publish(42, upload, archive_for("pkg", "1.0.0"), now())
        .unwrap();
    assert_eq!(reg.store.blobs.len(), 2);
    assert_eq!(reg.store.blobs[1].0, "readmes/pkg/pkg-1.0.0.html");
    assert_eq!(reg.store.blobs[1].1, b"<p>hello</p>".to_vec());
}

#[test]
fn publishes_beyond_the_burst_are_denied_with_a_retry_time() {
    let mut reg = test_registry();
    reg.limiter = RateLimiter {
        rate: 60 * SECOND,
        burst: 1,
    };
    reg.publish(42, upload_for("pkg", "1.0.0"), archive_for("pkg", "1.0.0"), now())
        .unwrap();
    let err = reg
        .publish(
            42,
            upload_for("pkg", "1.0.1"),
            archive_for("pkg", "1.0.1"),
            now(),
        )
        .unwrap_err();
    match err {
        PublishError::TooManyRequests { retry_after } => {
            assert_eq!(retry_after, now() + 60 * SECOND);
        }
        other => panic!("expected TooManyRequests, got {:?}", error_name(&other)),
    }
    assert_eq!(reg.versions.len(), 1);
}

fn error_name(e: &PublishError) -> &'static str {
    match e {
        PublishError::TooManyRequests { .. } => "TooManyRequests",
        PublishError::InvalidMetadata { .. } => "InvalidMetadata",
        PublishError::DuplicateVersion => "DuplicateVersion",
        PublishError::Forbidden => "Forbidden",
        PublishError::UploadTooLarge { .. } => "UploadTooLarge",
        PublishError::MalformedArchive { .. } => "MalformedArchive",
        PublishError::StorageFailure => "StorageFailure",
        PublishError::IndexConflict { .. } => "IndexConflict",
    }
}

#[test]
fn missing_metadata_lists_every_missing_field() {
    let mut reg = test_registry();
    let mut upload = upload_for("pkg", "1.0.0");
    upload.description = None;
    upload.license = None;
    upload.license_file = None;
    upload.authors = vec![String::new()];
    let err = reg
        .publish(42, upload, archive_for("pkg", "1.0.0"), now())
        .unwrap_err();
    match err {
        PublishError::InvalidMetadata { missing } => {
            assert_eq!(missing, vec!["description", "license", "authors"]);
        }
        other => panic!("expected InvalidMetadata, got {:?}", error_name(&other)),
    }
}

#[test]
fn an_unrecognised_license_is_rejected() {
    let mut reg = test_registry();
    let mut upload = upload_for("pkg", "1.0.0");
    upload.license = Some(String::from("NOT-A-LICENSE"));
    let err = reg
        .publish(42, upload, archive_for("pkg", "1.0.0"), now())
        .unwrap_err();
    match err {
        PublishError::InvalidMetadata { missing } => {
            assert_eq!(missing, vec!["license"]);
        }
        other => panic!("expected InvalidMetadata, got {:?}", error_name(&other)),
    }

    // A slash-separated expression of known licenses passes.
    let mut upload = upload_for("pkg", "1.0.0");
    upload.license = Some(String::from("MIT/Apache-2.0"));
    reg.publish(42, upload, archive_for("pkg", "1.0.0"), now())
        .unwrap();
    assert_eq!(reg.versions[0].license.as_deref(), Some("MIT/Apache-2.0"));
}

#[test]
fn a_license_file_alone_records_a_non_standard_license() {
    let mut reg = test_registry();
    let mut upload = upload_for("pkg", "1.0.0");
    upload.license = None;
    upload.license_file = Some(String::from("LICENSE"));
    reg.publish(42, upload, archive_for("pkg", "1.0.0"), now())
        .unwrap();
    assert_eq!(reg.versions[0].license.as_deref(), Some("non-standard"));
}

#[test]
fn only_an_owner_may_publish_new_versions() {
    let mut reg = test_registry();
    reg.publish(42, upload_for("pkg", "1.0.0"), archive_for("pkg", "1.0.0"), now())
        .unwrap();
    let err = reg
        .publish(
            7,
            upload_for("pkg", "1.1.0"),
            archive_for("pkg", "1.1.0"),
            now(),
        )
        .unwrap_err();
    assert!(matches!(err, PublishError::Forbidden));
    assert_eq!(reg.versions.len(), 1);
}

#[test]
fn uploads_over_the_ceiling_are_rejected_before_validation() {
    let mut reg = test_registry();
    reg.max_upload_size = 16;
    let err = reg
        .publish(42, upload_for("pkg", "1.0.0"), archive_for("pkg", "1.0.0"), now())
        .unwrap_err();
    match err {
        PublishError::UploadTooLarge { limit } => assert_eq!(limit, 16),
        other => panic!("expected UploadTooLarge, got {:?}", error_name(&other)),
    }
}

#[test]
fn malformed_archives_are_rejected() {
    let mut reg = test_registry();
    let err = reg
        .publish(42, upload_for("pkg", "1.0.0"), vec![1, 2, 3, 4], now())
        .unwrap_err();
    match err {
        PublishError::MalformedArchive { reason } => {
            assert_eq!(reason, ArchiveError::Malformed);
        }
        other => panic!("expected MalformedArchive, got {:?}", error_name(&other)),
    }
    assert_eq!(reg.store.blobs.len(), 0);
}

#[test]
fn unknown_categories_become_warnings_not_failures() {
    let mut reg = test_registry();
    let mut upload = upload_for("pkg", "1.0.0");
    upload.categories = vec![
        String::from("web-programming"),
        String::from("no-such-category"),
    ];
    let published = reg
        .publish(42, upload, archive_for("pkg", "1.0.0"), now())
        .unwrap();
    assert_eq!(
        published.warnings.invalid_categories,
        vec!["no-such-category"]
    );
    assert_eq!(reg.versions.len(), 1);
}
