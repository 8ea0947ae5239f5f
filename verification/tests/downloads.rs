//! Download counting: the periodic rollup and the download endpoint.

use cargo_registry::publish::{CrateRow, Registry, VersionDownload};
use cargo_registry::version::Version;
use cargo_registry::rate_limiter::{BucketStore, RateLimiter};
use cargo_registry::storage::BlobStore;
use cargo_registry::uploaders::Uploader;
use cargo_registry::downloads;

const SECOND: i64 = 1_000_000;
const HOUR: i64 = 3600 * SECOND;
const DAY: i64 = 24 * HOUR;

fn now() -> i64 {
    1_553_029_884_620_401
}

fn today() -> i64 {
    17_974
}

fn test_registry() -> Registry {
    Registry {
        limiter: RateLimiter {
            rate: 60 * SECOND,
            burst: 5,
        },
        buckets: BucketStore::new(),
        max_upload_size: 10 * 1024 * 1024,
        max_unpack_size: 512 * 1024 * 1024,
        next_crate_id: 1,
        crates: Vec::new(),
        versions: Vec::new(),
        version_authors: Vec::new(),
        owners: Vec::new(),
        known_categories: Vec::new(),
        jobs: Vec::new(),
        store: BlobStore::new(),
        uploader: Uploader::Local,
        version_downloads: Vec::new(),
        total_downloads: 0,
    }
}

fn crate_and_version(reg: &mut Registry) -> (i32, i32) {
    let crate_id = reg.next_crate_id;
    reg.next_crate_id += 1;
    reg.crates.push(CrateRow {
        id: crate_id,
        name: String::from("foo"),
        max_upload_size: None,
        downloads: 0,
        updated_at: now(),
    });
    let version_id = reg.versions.len() as i32 + 1;
    reg.versions.push(Version {
        id: version_id,
        crate_id,
        num: String::from("1.0.0"),
        created_at: now(),
        updated_at: now(),
        downloads: 0,
        size: 0,
        cksum: String::new(),
        license: None,
        yanked: false,
    });
    (crate_id, version_id)
}

#[test]
fn increment() {
    let mut reg = test_registry();
    let (crate_id, version_id) = crate_and_version(&mut reg);
    reg.version_downloads.push(VersionDownload {
        version_id,
        downloads: 1,
        counted: 0,
        date: today(),
        processed: false,
    });
    reg.version_downloads.push(VersionDownload {
        version_id,
        downloads: 1,
        counted: 0,
        date: today() - 1,
        processed: true,
    });

    downloads::update(&mut reg, today());
    assert_eq!(1, reg.versions[0].downloads);
    assert_eq!(version_id, reg.versions[0].id);
    assert_eq!(1, reg.crates[0].downloads);
    assert_eq!(crate_id, reg.crates[0].id);
    downloads::update(&mut reg, today());
    assert_eq!(1, reg.versions[0].downloads);
}

#[test]
fn set_processed_true() {
    let mut reg = test_registry();
    let (_, version_id) = crate_and_version(&mut reg);
    reg.version_downloads.push(VersionDownload {
        version_id,
        downloads: 2,
        counted: 2,
        date: today() - 2,
        processed: false,
    });
    downloads::update(&mut reg, today());
    assert_eq!(true, reg.version_downloads[0].processed);
}

#[test]
fn dont_process_recent_row() {
    let mut reg = test_registry();
    let (_, version_id) = crate_and_version(&mut reg);
    reg.version_downloads.push(VersionDownload {
        version_id,
        downloads: 2,
        counted: 2,
        date: today(),
        processed: false,
    });
    downloads::update(&mut reg, today());
    assert_eq!(false, reg.version_downloads[0].processed);
}

#[test]
fn increment_a_little() {
    let mut reg = test_registry();
    let (crate_id, version_id) = crate_and_version(&mut reg);
    reg.versions[0].updated_at = now() - 2 * HOUR;
    reg.crates[0].updated_at = now() - 2 * HOUR;
    reg.version_downloads.push(VersionDownload {
        version_id,
        downloads: 2,
        counted: 1,
        date: today(),
        processed: false,
    });
    reg.version_downloads.push(VersionDownload {
        version_id,
        downloads: 1,
        counted: 0,
        date: today() - 1,
        processed: false,
    });

    let version_before = reg.versions[0].updated_at;
    let krate_before = reg.crates[0].updated_at;
    downloads::update(&mut reg, today());
    assert_eq!(reg.versions[0].downloads, 2);
    assert_eq!(reg.versions[0].updated_at, version_before);
    assert_eq!(reg.crates[0].downloads, 2);
    assert_eq!(reg.crates[0].id, crate_id);
    assert_eq!(reg.crates[0].updated_at, krate_before);
    downloads::update(&mut reg, today());
    assert_eq!(reg.versions[0].downloads, 2);
}

#[test]
fn set_processed_no_set_updated_at() {
    let mut reg = test_registry();
    let (_, version_id) = crate_and_version(&mut reg);
    reg.versions[0].updated_at = now() - 2 * DAY;
    reg.crates[0].updated_at = now() - 2 * DAY;
    reg.version_downloads.push(VersionDownload {
        version_id,
        downloads: 2,
        counted: 2,
        date: today() - 2,
        processed: false,
    });

    downloads::update(&mut reg, today());
    assert_eq!(reg.versions[0].updated_at, now() - 2 * DAY);
    assert_eq!(reg.crates[0].updated_at, now() - 2 * DAY);
}

#[test]
fn download_counts_and_redirects() {
    let mut reg = test_registry();
    let (_, version_id) = crate_and_version(&mut reg);

    let url = downloads::download(&mut reg, "foo", "1.0.0", today()).unwrap();
    assert_eq!(url, "/crates/foo/foo-1.0.0.crate");
    assert_eq!(reg.version_downloads.len(), 1);
    assert_eq!(reg.version_downloads[0].version_id, version_id);
    assert_eq!(reg.version_downloads[0].downloads, 1);

    // A second download the same day increments the same tally row.
    downloads::download(&mut reg, "foo", "1.0.0", today()).unwrap();
    assert_eq!(reg.version_downloads.len(), 1);
    assert_eq!(reg.version_downloads[0].downloads, 2);

    // An unknown version is refused and counts nothing.
    assert!(downloads::download(&mut reg, "foo", "2.0.0", today()).is_err());
    assert!(downloads::download(&mut reg, "bar", "1.0.0", today()).is_err());
    assert_eq!(reg.version_downloads.len(), 1);

    // The rollup then propagates both downloads.
    downloads::update(&mut reg, today());
    assert_eq!(reg.versions[0].downloads, 2);
    assert_eq!(reg.crates[0].downloads, 2);
    assert_eq!(reg.total_downloads, 2);
}

#[test]
fn s3_download_url_uses_cdn_host() {
    let mut reg = test_registry();
    reg.uploader = Uploader::S3 {
        bucket_host: String::from("bucket.example.com"),
        cdn: Some(String::from("cdn.example.com")),
    };
    crate_and_version(&mut reg);
    let url = downloads::download(&mut reg, "foo", "1.0.0", today()).unwrap();
    assert_eq!(url, "https://cdn.example.com/crates/foo/foo-1.0.0.crate");
}
