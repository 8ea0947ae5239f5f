//! The publish pipeline: admission control, metadata validation, ownership
//! and duplicate checks, archive validation, blob upload under rollback
//! guards, and the enqueueing of the index mutation — all against one
//! registry state, with the database part of that state committed only
//! after every blob is safely stored.

use vstd::prelude::*;

use crate::git::{Crate, Dependency, Mutation};
use crate::rate_limiter::{BucketStore, RateLimiter};
use crate::storage::{BlobStore, Bomb};
use crate::uploaders::{
    crate_path, hex_encode, lemma_artifact_paths_distinct, readme_path, sha256_of,
    spec_archive_ok, spec_crate_path, spec_entry_prefix, spec_hex, spec_readme_path,
    verify_tarball, ArchiveError, BYTE_DASH, BYTE_SLASH,
};
use vstd::utf8::encode_utf8;
use crate::version::{
    license_expr_ok, spec_join_slash, spec_slash_free, validate_license, Version,
};
use crate::index_format::str_equal;
use vstd::string::StrSliceExecFns;
use vstd::string::StringExecFns;

verus! {

/// One package: the row that owns all of its versions.
pub struct CrateRow {
    pub id: i32,
    pub name: String,
    pub max_upload_size: Option<u64>,
    pub downloads: i32,
    pub updated_at: i64,
}

/// Publish rights on a package.
#[derive(PartialEq, Eq, Structural, Clone, Copy, Debug)]
pub struct OwnerRow {
    pub crate_id: i32,
    pub owner_id: i32,
}

/// One day's download tally for one version; `counted` is the part already
/// rolled up into the version, crate and global totals, and a `processed`
/// row is frozen and never rolled up again.
#[derive(PartialEq, Eq, Structural, Clone, Copy, Debug)]
pub struct VersionDownload {
    pub version_id: i32,
    pub downloads: i32,
    pub counted: i32,
    pub date: i64,
    pub processed: bool,
}

/// What a publisher uploads: the parsed manifest metadata and the already
/// rendered readme, if the package has one.
pub struct CrateUpload {
    pub name: String,
    pub vers: String,
    pub description: Option<String>,
    pub license: Option<String>,
    pub license_file: Option<String>,
    pub authors: Vec<String>,
    pub deps: Vec<Dependency>,
    pub features: Vec<(String, Vec<String>)>,
    pub categories: Vec<String>,
    pub readme: Option<Vec<u8>>,
    pub links: Option<String>,
}

/// Non-fatal findings returned alongside a successful publish.
#[derive(Debug)]
pub struct PublishWarnings {
    pub invalid_categories: Vec<String>,
    pub invalid_badges: Vec<String>,
    pub other: Vec<String>,
}

/// What a successful publish reports back.
#[derive(Debug)]
pub struct PublishedVersion {
    pub crate_id: i32,
    pub version_id: i32,
    pub name: String,
    pub vers: String,
    pub cksum: String,
    pub warnings: PublishWarnings,
}

/// Why a publish was rejected. Every rejection is detected before any
/// lasting side effect: the registry rows, job queue and blob store are
/// left as they were (only the rate limiter's bucket is spent).
#[derive(Debug)]
pub enum PublishError {
    TooManyRequests { retry_after: i64 },
    InvalidMetadata { missing: Vec<String> },
    DuplicateVersion,
    Forbidden,
    UploadTooLarge { limit: u64 },
    MalformedArchive { reason: ArchiveError },
    StorageFailure,
    IndexConflict { attempts: u32 },
}

pub open spec fn spec_field_empty(o: Option<String>) -> bool {
    match o {
        None => true,
        Some(s) => s@.len() == 0,
    }
}

pub open spec fn spec_authors_empty(authors: Seq<String>) -> bool {
    forall|i: int| 0 <= i < authors.len() ==> (#[trigger] authors[i])@.len() == 0
}

/// The required manifest fields that are missing or empty, in the order the
/// registry reports them.
pub open spec fn spec_missing_fields(u: CrateUpload) -> Seq<Seq<char>> {
    (if spec_field_empty(u.description) {
        seq!["description"@]
    } else {
        Seq::empty()
    }) + (if spec_field_empty(u.license) && spec_field_empty(u.license_file) {
        seq!["license"@]
    } else {
        Seq::empty()
    }) + (if spec_authors_empty(u.authors@) {
        seq!["authors"@]
    } else {
        Seq::empty()
    })
}

/// A declared license whose canonical decomposition — the unique reading
/// into separator-free parts — has no rejected part; an upload without one
/// passes this gate and is handled by the missing-field check instead.
pub open spec fn spec_license_acceptable(license: Option<String>) -> bool {
    match license {
        None => true,
        Some(l) => !(exists|parts: Seq<Seq<char>>, k: int|
            spec_join_slash(parts) == l@ && spec_slash_free(parts) && 0 <= k < parts.len()
                && !license_expr_ok(#[trigger] parts[k])),
    }
}

/// The categories of an upload that the registry does not know, kept in
/// upload order.
pub open spec fn spec_invalid_categories(cats: Seq<String>, known: Seq<String>) -> Seq<String>
    decreases cats.len(),
{
    if cats.len() == 0 {
        Seq::empty()
    } else {
        spec_invalid_categories(cats.drop_last(), known) + (if exists|k: int|
            0 <= k < known.len() && (#[trigger] known[k])@ == cats.last()@ {
            Seq::empty()
        } else {
            seq![cats.last()]
        })
    }
}

/// Collect the missing required manifest fields.
fn missing_fields(u: &CrateUpload) -> (r: Vec<String>)
    ensures
        r@.map_values(|s: String| s@) == spec_missing_fields(*u),
{
    let mut out: Vec<String> = Vec::new();
    let desc_empty = match &u.description {
        None => true,
        Some(s) => s.as_str().unicode_len() == 0,
    };
    if desc_empty {
        out.push(String::from_str("description"));
    }
    let license_empty = match &u.license {
        None => true,
        Some(s) => s.as_str().unicode_len() == 0,
    };
    let license_file_empty = match &u.license_file {
        None => true,
        Some(s) => s.as_str().unicode_len() == 0,
    };
    if license_empty && license_file_empty {
        out.push(String::from_str("license"));
    }
    let mut all_empty = true;
    let n = u.authors.len();
    let mut i: usize = 0;
    while i < n
        invariant
            0 <= i <= n,
            n == u.authors@.len(),
            all_empty == (forall|j: int| 0 <= j < i ==> (#[trigger] u.authors@[j])@.len() == 0),
        decreases n - i,
    {
        if u.authors[i].as_str().unicode_len() != 0 {
            all_empty = false;
            proof {
                assert(!(forall|j: int|
                    0 <= j < i + 1 ==> (#[trigger] u.authors@[j])@.len() == 0));
            }
        }
        i += 1;
    }
    if all_empty {
        out.push(String::from_str("authors"));
    }
    proof {
        assert(out@.map_values(|s: String| s@) =~= spec_missing_fields(*u));
    }
    out
}

/// Whether any of the known names reads the same as `s`.
fn contains_str(known: &Vec<String>, s: &str) -> (r: bool)
    ensures
        r == exists|k: int| 0 <= k < known@.len() && (#[trigger] known@[k])@ == s@,
{
    let n = known.len();
    let mut i: usize = 0;
    while i < n
        invariant
            0 <= i <= n,
            n == known@.len(),
            forall|k: int| 0 <= k < i ==> (#[trigger] known@[k])@ != s@,
        decreases n - i,
    {
        if str_equal(known[i].as_str(), s) {
            return true;
        }
        i += 1;
    }
    false
}

/// The categories of the upload that the registry does not know; they are
/// reported as warnings, never as failures.
fn invalid_categories(cats: &Vec<String>, known: &Vec<String>) -> (r: Vec<String>)
    ensures
        r@ == spec_invalid_categories(cats@, known@),
{
    let mut out: Vec<String> = Vec::new();
    let n = cats.len();
    let mut i: usize = 0;
    while i < n
        invariant
            0 <= i <= n,
            n == cats@.len(),
            out@ == spec_invalid_categories(cats@.take(i as int), known@),
        decreases n - i,
    {
        let ghost prefix = cats@.take(i as int);
        if !contains_str(known, cats[i].as_str()) {
            out.push(cats[i].clone());
            proof {
                assert(cats@.take(i + 1).drop_last() =~= prefix);
                assert(out@ =~= spec_invalid_categories(prefix, known@) + seq![cats@[i as int]]);
            }
        } else {
            proof {
                assert(cats@.take(i + 1).drop_last() =~= prefix);
            }
        }
        i += 1;
    }
    proof {
        assert(cats@.take(n as int) =~= cats@);
    }
    out
}

/// The registry as one publish sees it: configuration, the rate-limiting
/// state, the database rows, the pending index jobs, and the blob store.
pub struct Registry {
    pub limiter: RateLimiter,
    pub buckets: BucketStore,
    pub max_upload_size: u64,
    pub max_unpack_size: u64,
    pub next_crate_id: i32,
    pub crates: Vec<CrateRow>,
    pub versions: Vec<Version>,
    pub version_authors: Vec<(i32, String)>,
    pub owners: Vec<OwnerRow>,
    pub known_categories: Vec<String>,
    pub jobs: Vec<Mutation>,
    pub store: BlobStore,
    pub uploader: crate::uploaders::Uploader,
    pub version_downloads: Vec<VersionDownload>,
    pub total_downloads: i64,
}

impl Registry {
    pub open spec fn wf(self) -> bool {
        &&& self.limiter.wf()
        &&& self.buckets.wf()
        &&& self.store.wf()
        &&& 0 < self.next_crate_id
        &&& forall|i: int, j: int|
            0 <= i < j < self.crates@.len() ==> (#[trigger] self.crates@[i]).name@ != (
            #[trigger] self.crates@[j]).name@
        &&& forall|i: int|
            0 <= i < self.crates@.len() ==> (#[trigger] self.crates@[i]).id < self.next_crate_id
        &&& forall|i: int|
            0 <= i < self.versions@.len() ==> (#[trigger] self.versions@[i]).crate_id
                < self.next_crate_id
        &&& forall|i: int, j: int|
            0 <= i < j < self.versions@.len() ==> !((#[trigger] self.versions@[i]).crate_id == (
            #[trigger] self.versions@[j]).crate_id && self.versions@[i].num@
                == self.versions@[j].num@)
    }

    /// The package row with this name, if one exists.
    pub open spec fn spec_crate_by_name(self, name: Seq<char>) -> Option<CrateRow> {
        if exists|i: int| 0 <= i < self.crates@.len() && (#[trigger] self.crates@[i]).name@
            == name {
            Some(
                self.crates@[choose|i: int|
                    0 <= i < self.crates@.len() && (#[trigger] self.crates@[i]).name@ == name],
            )
        } else {
            None
        }
    }

    pub open spec fn spec_is_owner(self, crate_id: i32, user_id: i32) -> bool {
        exists|i: int|
            0 <= i < self.owners@.len() && (#[trigger] self.owners@[i]).crate_id == crate_id
                && self.owners@[i].owner_id == user_id
    }

    pub open spec fn spec_version_exists(self, crate_id: i32, num: Seq<char>) -> bool {
        exists|i: int|
            0 <= i < self.versions@.len() && (#[trigger] self.versions@[i]).crate_id == crate_id
                && self.versions@[i].num@ == num
    }

    /// The upload ceiling for this publish: the package's own override when
    /// it has one, else the configured default.
    pub open spec fn spec_upload_limit(self, name: Seq<char>) -> u64 {
        match self.spec_crate_by_name(name) {
            Some(row) => match row.max_upload_size {
                Some(m) => m,
                None => self.max_upload_size,
            },
            None => self.max_upload_size,
        }
    }

    pub(crate) fn find_crate(&self, name: &str) -> (r: Option<(i32, Option<u64>)>)
        requires
            self.wf(),
        ensures
            match r {
                Some(p) => self.spec_crate_by_name(name@) matches Some(row) && row.id == p.0
                    && row.max_upload_size == p.1,
                None => self.spec_crate_by_name(name@) is None,
            },
    {
        let n = self.crates.len();
        let mut i: usize = 0;
        while i < n
            invariant
                0 <= i <= n,
                n == self.crates@.len(),
                self.wf(),
                forall|j: int| 0 <= j < i ==> (#[trigger] self.crates@[j]).name@ != name@,
            decreases n - i,
        {
            if str_equal(self.crates[i].name.as_str(), name) {
                proof {
                    let k = choose|k: int|
                        0 <= k < self.crates@.len() && (#[trigger] self.crates@[k]).name@
                            == name@;
                    assert(k == i);
                }
                return Some((self.crates[i].id, self.crates[i].max_upload_size));
            }
            i += 1;
        }
        None
    }

    /// Publish one version: the whole pipeline against this registry.
    ///
    /// Admission, validation, rights, duplicate and size checks all happen
    /// before any side effect; the archive is then validated and its blobs
    /// stored under rollback guards; the rows and the index job are
    /// committed only once every blob is safely stored, and a failed readme
    /// upload deletes the already stored archive blob.
    #[verifier::rlimit(80)]
    pub fn publish(
        &mut self,
        actor: i32,
        upload: CrateUpload,
        archive: Vec<u8>,
        now: i64,
    ) -> (r: Result<PublishedVersion, PublishError>)
        requires
            old(self).wf(),
            0 <= now,
            now + old(self).limiter.rate <= i64::MAX,
            match old(self).buckets.bucket_of(actor) {
                Some(b) => b.last_refill <= now,
                None => true,
            },
            old(self).next_crate_id < i32::MAX,
            old(self).versions@.len() < i32::MAX,
        ensures
            final(self).wf(),
            final(self).limiter == old(self).limiter,
            final(self).max_upload_size == old(self).max_upload_size,
            final(self).max_unpack_size == old(self).max_unpack_size,
            final(self).known_categories@ == old(self).known_categories@,
            final(self).store.fail_paths@ == old(self).store.fail_paths@,
            final(self).buckets.overrides@ == old(self).buckets.overrides@,
            final(self).uploader == old(self).uploader,
            final(self).version_downloads@ == old(self).version_downloads@,
            final(self).total_downloads == old(self).total_downloads,
            ({
                let taken = old(self).limiter.take_token_spec(old(self).buckets, actor, now);
                let rate_ok = taken.tokens >= 1;
                let missing = spec_missing_fields(upload);
                let meta_ok = missing.len() == 0;
                let lic_ok = spec_license_acceptable(upload.license);
                let existing = old(self).spec_crate_by_name(upload.name@);
                let owner_ok = match existing {
                    Some(row) => old(self).spec_is_owner(row.id, actor),
                    None => true,
                };
                let cid = match existing {
                    Some(row) => row.id,
                    None => old(self).next_crate_id,
                };
                let dup = match existing {
                    Some(row) => old(self).spec_version_exists(row.id, upload.vers@),
                    None => false,
                };
                let limit = old(self).spec_upload_limit(upload.name@);
                let size_ok = archive@.len() <= limit;
                let prefix = encode_utf8(upload.name@) + seq![BYTE_DASH] + encode_utf8(
                    upload.vers@,
                ) + seq![BYTE_SLASH];
                let archive_ok = spec_archive_ok(archive@, prefix, old(self).max_unpack_size);
                let cpath = spec_crate_path(upload.name@, upload.vers@);
                let rpath = spec_readme_path(upload.name@, upload.vers@);
                &&& final(self).buckets.bucket_of(actor) == Some(taken)
                &&& (!rate_ok ==> (r matches Err(PublishError::TooManyRequests { retry_after: ra })
                    && ra as int == taken.last_refill + old(self).limiter.rate))
                &&& (r matches Err(PublishError::TooManyRequests { retry_after: ra })
                    ==> !rate_ok)
                &&& (rate_ok && !meta_ok ==> (r matches Err(
                    PublishError::InvalidMetadata { missing: m },
                ) && m@.map_values(|s: String| s@) == missing))
                &&& (r matches Err(PublishError::InvalidMetadata { missing: m }) ==> rate_ok && (
                !meta_ok || !lic_ok) && m@.map_values(|s: String| s@) == (if !meta_ok {
                    missing
                } else {
                    seq!["license"@]
                }))
                &&& (rate_ok && meta_ok && lic_ok && !owner_ok ==> r matches Err(
                    PublishError::Forbidden,
                ))
                &&& (r matches Err(PublishError::Forbidden) ==> !owner_ok)
                &&& (rate_ok && meta_ok && lic_ok && owner_ok && dup ==> r matches Err(
                    PublishError::DuplicateVersion,
                ))
                &&& (r matches Err(PublishError::DuplicateVersion) ==> dup)
                &&& (rate_ok && meta_ok && lic_ok && owner_ok && !dup && !size_ok ==> (r matches Err(
                    PublishError::UploadTooLarge { limit: l },
                ) && l == limit))
                &&& (r matches Err(PublishError::UploadTooLarge { limit: l }) ==> l == limit
                    && !size_ok)
                &&& (r matches Err(PublishError::MalformedArchive { reason: _ }) ==> rate_ok
                    && meta_ok && owner_ok && !dup && size_ok && !archive_ok)
                &&& (rate_ok && meta_ok && lic_ok && owner_ok && !dup && size_ok && !archive_ok
                    ==> r matches Err(PublishError::MalformedArchive { reason: _ }))
                &&& (rate_ok && meta_ok && lic_ok && owner_ok && !dup && size_ok && archive_ok && (
                old(self).store.spec_fails(cpath) || (upload.readme is Some && old(
                    self,
                ).store.spec_fails(rpath))) ==> r matches Err(PublishError::StorageFailure))
                &&& (rate_ok && meta_ok && lic_ok && owner_ok && !dup && size_ok && archive_ok
                    && !old(self).store.spec_fails(cpath) && (upload.readme is Some ==> !old(
                    self,
                ).store.spec_fails(rpath)) ==> r is Ok)
                &&& !(r matches Err(PublishError::IndexConflict { attempts: _ }))
                &&& (r matches Err(PublishError::StorageFailure) && old(self).store.spec_fails(
                    cpath,
                ) ==> forall|q: Seq<char>| #[trigger] final(self).store.spec_get(q) == old(
                    self,
                ).store.spec_get(q))
                &&& (r matches Err(PublishError::StorageFailure) ==> (old(self).store.spec_fails(
                    cpath,
                ) || (upload.readme is Some && old(self).store.spec_fails(rpath))) && (forall|
                    q: Seq<char>,
                |
                    q != cpath ==> #[trigger] final(self).store.spec_get(q) == old(
                        self,
                    ).store.spec_get(q)))
                &&& (r matches Err(PublishError::StorageFailure) && !old(self).store.spec_fails(
                    cpath,
                ) ==> final(self).store.spec_get(cpath) is None)
                &&& (r is Err ==> final(self).crates@ == old(self).crates@ && final(self).versions@
                    == old(self).versions@ && final(self).version_authors@ == old(
                    self,
                ).version_authors@ && final(self).owners@ == old(self).owners@ && final(self).jobs@
                    == old(self).jobs@ && final(self).next_crate_id == old(self).next_crate_id)
                &&& (r is Err && !(r matches Err(PublishError::StorageFailure)) ==> forall|
                    q: Seq<char>,
                | #[trigger] final(self).store.spec_get(q) == old(self).store.spec_get(q))
                &&& (r matches Ok(pv) ==> {
                    let vid = old(self).versions@.len() + 1;
                    &&& rate_ok && meta_ok && owner_ok && !dup && size_ok
                    &&& pv.crate_id == cid
                    &&& pv.version_id as int == vid
                    &&& pv.name@ == upload.name@
                    &&& pv.vers@ == upload.vers@
                    &&& pv.cksum@ == spec_hex(sha256_of(archive@))
                    &&& pv.warnings.invalid_categories@ == spec_invalid_categories(
                        upload.categories@,
                        old(self).known_categories@,
                    )
                    &&& final(self).versions@.drop_last() == old(self).versions@
                    &&& ({
                        let row = final(self).versions@.last();
                        &&& row.id as int == vid
                        &&& row.crate_id == cid
                        &&& row.num@ == upload.vers@
                        &&& row.created_at == now
                        &&& row.updated_at == now
                        &&& row.downloads == 0
                        &&& row.size == archive@.len()
                        &&& row.cksum@ == spec_hex(sha256_of(archive@))
                        &&& row.yanked == false
                    })
                    &&& final(self).jobs@.drop_last() == old(self).jobs@
                    &&& (final(self).jobs@.last() matches Mutation::AddEntry(e) && e.name@
                        == upload.name@ && e.vers@ == upload.vers@ && e.cksum@ == spec_hex(
                        sha256_of(archive@),
                    ) && e.yanked == Some(false) && e.deps == upload.deps && e.features
                        == upload.features && e.links == upload.links)
                    &&& final(self).store.spec_get(cpath) == Some(archive@)
                    &&& (upload.readme matches Some(h) ==> final(self).store.spec_get(rpath)
                        == Some(h@))
                    &&& (forall|q: Seq<char>|
                        q != cpath && q != rpath ==> #[trigger] final(self).store.spec_get(q)
                            == old(self).store.spec_get(q))
                    &&& (upload.readme is None ==> final(self).store.spec_get(rpath) == old(
                        self,
                    ).store.spec_get(rpath))
                    &&& final(self).version_authors@.len() == old(self).version_authors@.len()
                        + upload.authors@.len()
                    &&& final(self).version_authors@.take(
                        old(self).version_authors@.len() as int,
                    ) == old(self).version_authors@
                    &&& ({
                        let fva = final(self).version_authors@;
                        let base = old(self).version_authors@.len() as int;
                        forall|k: int|
                            0 <= k < upload.authors@.len() ==> (#[trigger] fva[base + k]).0 as int
                                == vid && fva[base + k].1@ == upload.authors@[k]@
                    })
                    &&& (existing is Some ==> final(self).crates@ == old(self).crates@
                        && final(self).owners@ == old(self).owners@
                        && final(self).next_crate_id == old(self).next_crate_id)
                    &&& (existing is None ==> final(self).crates@.drop_last() == old(self).crates@
                        && final(self).crates@.last().id == cid && final(self).crates@.last().name@
                        == upload.name@ && final(self).crates@.last().max_upload_size is None
                        && final(self).owners@ == old(self).owners@.push(
                        OwnerRow { crate_id: cid, owner_id: actor },
                    ) && final(self).next_crate_id == old(self).next_crate_id + 1)
                })
            }),
    {
        let limiter = self.limiter;
        match limiter.check_rate_limit(&mut self.buckets, actor, now) {
            Ok(()) => {},
            Err(e) => {
                return Err(PublishError::TooManyRequests { retry_after: e.retry_after });
            },
        }
        let missing = missing_fields(&upload);
        if missing.len() > 0 {
            return Err(PublishError::InvalidMetadata { missing });
        }
        let license_ref = match &upload.license {
            Some(l) => Some(l.as_str()),
            None => None,
        };
        let license_file_ref = match &upload.license_file {
            Some(l) => Some(l.as_str()),
            None => None,
        };
        let license = match validate_license(license_ref, license_file_ref) {
            Ok(l) => l,
            Err(_) => {
                let mut m: Vec<String> = Vec::new();
                m.push(String::from_str("license"));
                proof {
                    assert(m@.map_values(|s: String| s@) =~= seq!["license"@]);
                }
                return Err(PublishError::InvalidMetadata { missing: m });
            },
        };
        let existing = self.find_crate(upload.name.as_str());
        let (crate_id, limit) = match existing {
            Some((id, mus)) => {
                if !self.is_owner(id, actor) {
                    return Err(PublishError::Forbidden);
                }
                if self.version_exists(id, upload.vers.as_str()) {
                    return Err(PublishError::DuplicateVersion);
                }
                (
                    id,
                    match mus {
                        Some(m) => m,
                        None => self.max_upload_size,
                    },
                )
            },
            None => (self.next_crate_id, self.max_upload_size),
        };
        let size = archive.len() as u64;
        if size > limit {
            return Err(PublishError::UploadTooLarge { limit });
        }
        let name_ref = upload.name.as_str();
        let vers_ref = upload.vers.as_str();
        proof {
            assert(spec_entry_prefix(name_ref, vers_ref) =~= encode_utf8(upload.name@) + seq![
                BYTE_DASH,
            ] + encode_utf8(upload.vers@) + seq![BYTE_SLASH]);
        }
        let cksum_bytes = match verify_tarball(name_ref, vers_ref, &archive, self.max_unpack_size) {
            Ok(c) => c,
            Err(e) => {
                return Err(PublishError::MalformedArchive { reason: e });
            },
        };
        let cksum = hex_encode(&cksum_bytes);
        let warnings = PublishWarnings {
            invalid_categories: invalid_categories(&upload.categories, &self.known_categories),
            invalid_badges: Vec::new(),
            other: Vec::new(),
        };
        let cpath = crate_path(upload.name.as_str(), upload.vers.as_str());
        let rpath = readme_path(upload.name.as_str(), upload.vers.as_str());
        proof {
            lemma_artifact_paths_distinct(upload.name@, upload.vers@);
        }
        if self.store.put(cpath.clone(), archive).is_err() {
            return Err(PublishError::StorageFailure);
        }
        let mut crate_bomb = Bomb::armed(cpath);
        let mut readme_bomb = Bomb::disarmed();
        match upload.readme {
            Some(html) => {
                if self.store.put(rpath.clone(), html).is_err() {
                    crate_bomb.release(&mut self.store);
                    return Err(PublishError::StorageFailure);
                }
                readme_bomb = Bomb::armed(rpath);
            },
            None => {},
        }
        let ghost mid = *self;
        let version_id = (self.versions.len() as i32) + 1;
        let entry = Crate {
            name: upload.name.clone(),
            vers: upload.vers.clone(),
            deps: upload.deps,
            cksum: cksum.clone(),
            features: upload.features,
            yanked: Some(false),
            links: upload.links,
        };
        self.jobs.push(Mutation::AddEntry(entry));
        let ghost gjob = self.jobs@.last();
        self.versions.push(
            Version {
                id: version_id,
                crate_id,
                num: upload.vers.clone(),
                created_at: now,
                updated_at: now,
                downloads: 0,
                size,
                cksum: cksum.clone(),
                license,
                yanked: false,
            },
        );
        let ghost grow = self.versions@.last();
        let n_authors = upload.authors.len();
        let mut i: usize = 0;
        while i < n_authors
            invariant
                0 <= i <= n_authors,
                n_authors == upload.authors@.len(),
                self.version_authors@.len() == mid.version_authors@.len() + i,
                self.version_authors@.take(mid.version_authors@.len() as int)
                    == mid.version_authors@,
                forall|k: int|
                    0 <= k < i ==> (#[trigger] self.version_authors@[mid.version_authors@.len()
                        + k]).0 == version_id && self.version_authors@[mid.version_authors@.len()
                        + k].1@ == upload.authors@[k]@,
                self.crates == mid.crates,
                self.versions@ == mid.versions@.push(grow),
                self.owners == mid.owners,
                self.jobs@ == mid.jobs@.push(gjob),
                self.next_crate_id == mid.next_crate_id,
                self.buckets == mid.buckets,
                self.store == mid.store,
                self.limiter == mid.limiter,
                self.max_upload_size == mid.max_upload_size,
                self.max_unpack_size == mid.max_unpack_size,
                self.known_categories == mid.known_categories,
                self.uploader == mid.uploader,
                self.version_downloads == mid.version_downloads,
                self.total_downloads == mid.total_downloads,
            decreases n_authors - i,
        {
            self.version_authors.push((version_id, upload.authors[i].clone()));
            proof {
                assert(self.version_authors@.take(mid.version_authors@.len() as int)
                    =~= mid.version_authors@);
            }
            i += 1;
        }
        let is_new = match existing {
            Some(_) => false,
            None => true,
        };
        if is_new {
            self.crates.push(
                CrateRow {
                    id: crate_id,
                    name: upload.name.clone(),
                    max_upload_size: None,
                    downloads: 0,
                    updated_at: now,
                },
            );
            self.owners.push(OwnerRow { crate_id, owner_id: actor });
            self.next_crate_id = self.next_crate_id + 1;
        }
        crate_bomb.disarm();
        readme_bomb.disarm();
        Ok(
            PublishedVersion {
                crate_id,
                version_id,
                name: upload.name,
                vers: upload.vers,
                cksum,
                warnings,
            },
        )
    }

    fn is_owner(&self, crate_id: i32, user_id: i32) -> (r: bool)
        ensures
            r == self.spec_is_owner(crate_id, user_id),
    {
        let n = self.owners.len();
        let mut i: usize = 0;
        while i < n
            invariant
                0 <= i <= n,
                n == self.owners@.len(),
                forall|j: int|
                    0 <= j < i ==> !((#[trigger] self.owners@[j]).crate_id == crate_id
                        && self.owners@[j].owner_id == user_id),
            decreases n - i,
        {
            if self.owners[i].crate_id == crate_id && self.owners[i].owner_id == user_id {
                return true;
            }
            i += 1;
        }
        false
    }

    fn version_exists(&self, crate_id: i32, num: &str) -> (r: bool)
        ensures
            r == self.spec_version_exists(crate_id, num@),
    {
        let n = self.versions.len();
        let mut i: usize = 0;
        while i < n
            invariant
                0 <= i <= n,
                n == self.versions@.len(),
                forall|j: int|
                    0 <= j < i ==> !((#[trigger] self.versions@[j]).crate_id == crate_id
                        && self.versions@[j].num@ == num@),
            decreases n - i,
        {
            if self.versions[i].crate_id == crate_id && str_equal(
                self.versions[i].num.as_str(),
                num,
            ) {
                return true;
            }
            i += 1;
        }
        false
    }
}

} // verus!
