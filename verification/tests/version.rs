//! Version records: their wire form and license validation.

use cargo_registry::version::{validate_license, Version};

#[test]
fn encodable_builds_the_api_paths() {
    let version = Version {
        id: 7,
        crate_id: 3,
        num: String::from("1.2.3"),
        created_at: 100,
        updated_at: 200,
        downloads: 4,
        size: 55,
        cksum: String::from("ab"),
        license: Some(String::from("MIT")),
        yanked: false,
    };
    let encodable = version.encodable("serde");
    assert_eq!(encodable.id, 7);
    assert_eq!(encodable.krate, "serde");
    assert_eq!(encodable.num, "1.2.3");
    assert_eq!(encodable.dl_path, "/api/v1/crates/serde/1.2.3/download");
    assert_eq!(encodable.readme_path, "/api/v1/crates/serde/1.2.3/readme");
    assert_eq!(
        encodable.links.dependencies,
        "/api/v1/crates/serde/1.2.3/dependencies"
    );
    assert_eq!(
        encodable.links.version_downloads,
        "/api/v1/crates/serde/1.2.3/downloads"
    );
    assert_eq!(encodable.links.authors, "/api/v1/crates/serde/1.2.3/authors");
    assert_eq!(encodable.downloads, 4);
    assert_eq!(encodable.license.as_deref(), Some("MIT"));
}

#[test]
fn known_license_expressions_are_kept() {
    assert_eq!(
        validate_license(Some("MIT"), None).unwrap().as_deref(),
        Some("MIT")
    );
    assert_eq!(
        validate_license(Some("MIT/Apache-2.0"), None)
            .unwrap()
            .as_deref(),
        Some("MIT/Apache-2.0")
    );
}

#[test]
fn unknown_license_terms_are_rejected() {
    assert!(validate_license(Some("NOT-A-LICENSE"), None).is_err());
    assert!(validate_license(Some("MIT/NOT-A-LICENSE"), None).is_err());
}

#[test]
fn a_license_file_without_an_expression_is_non_standard() {
    assert_eq!(
        validate_license(None, Some("LICENSE")).unwrap().as_deref(),
        Some("non-standard")
    );
    assert_eq!(validate_license(None, None).unwrap(), None);
}
