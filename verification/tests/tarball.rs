//! Archive validation: directory-prefix and link checks, the decompression
//! cap, and the checksum of record.

use std::io::Write;

use cargo_registry::uploaders::{verify_tarball, ArchiveError};

fn gzip(bytes: &[u8]) -> Vec<u8> {
    let mut encoder = flate2::write::GzEncoder::new(Vec::new(), flate2::Compression::default());
    encoder.write_all(bytes).unwrap();
    encoder.finish().unwrap()
}

fn tarball(entries: &[(&str, &[u8])]) -> Vec<u8> {
    let mut builder = tar::Builder::new(Vec::new());
    for (path, contents) in entries {
        let mut header = tar::Header::new_gnu();
        header.set_path(path).unwrap();
        header.set_size(contents.len() as u64);
        header.set_cksum();
        builder.append(&header, *contents).unwrap();
    }
    gzip(&builder.into_inner().unwrap())
}

fn tarball_with_symlink() -> Vec<u8> {
    let mut builder = tar::Builder::new(Vec::new());
    let mut header = tar::Header::new_gnu();
    header.set_path("pkg-1.0.0/link").unwrap();
    header.set_entry_type(tar::EntryType::Symlink);
    header.set_link_name("/etc/passwd").unwrap();
    header.set_size(0);
    header.set_cksum();
    builder.append(&header, &[][..]).unwrap();
    gzip(&builder.into_inner().unwrap())
}

const MAX_UNPACK: u64 = 512 * 1024;

#[test]
fn valid_archive_yields_the_digest_of_the_raw_bytes() {
    let bytes = tarball(&[
        ("pkg-1.0.0/Cargo.toml", b"[package]\nname = \"pkg\"\n"),
        ("pkg-1.0.0/src/lib.rs", b""),
    ]);
    let cksum = verify_tarball("pkg", "1.0.0", &bytes, MAX_UNPACK).unwrap();
    // The checksum of record is over the compressed bytes, computed
    // independently here.
    let expected = openssl::sha::sha256(&bytes).to_vec();
    assert_eq!(cksum, expected);
    assert_eq!(hex::encode(&cksum).len(), 64);
}

#[test]
fn entry_of_another_package_is_rejected() {
    let bytes = tarball(&[
        ("pkg-1.0.0/Cargo.toml", b"x"),
        ("other-1.0.0/evil", b"y"),
    ]);
    assert_eq!(
        verify_tarball("pkg", "1.0.0", &bytes, MAX_UNPACK).unwrap_err(),
        ArchiveError::Malformed
    );
}

#[test]
fn wrong_version_directory_is_rejected() {
    let bytes = tarball(&[("pkg-1.0.1/Cargo.toml", b"x")]);
    assert_eq!(
        verify_tarball("pkg", "1.0.0", &bytes, MAX_UNPACK).unwrap_err(),
        ArchiveError::Malformed
    );
}

#[test]
fn symlink_entry_is_rejected() {
    let bytes = tarball_with_symlink();
    assert_eq!(
        verify_tarball("pkg", "1.0.0", &bytes, MAX_UNPACK).unwrap_err(),
        ArchiveError::Malformed
    );
}

#[test]
fn oversized_decompressed_contents_are_rejected() {
    let big = vec![0u8; 8192];
    let bytes = tarball(&[("pkg-1.0.0/big", &big)]);
    assert_eq!(
        verify_tarball("pkg", "1.0.0", &bytes, 512).unwrap_err(),
        ArchiveError::TooLarge
    );
    // The same archive passes under a sufficient cap.
    assert!(verify_tarball("pkg", "1.0.0", &bytes, MAX_UNPACK).is_ok());
}

#[test]
fn garbage_bytes_are_rejected() {
    let bytes = vec![1u8, 2, 3, 4, 5];
    assert_eq!(
        verify_tarball("pkg", "1.0.0", &bytes, MAX_UNPACK).unwrap_err(),
        ArchiveError::Malformed
    );
}
