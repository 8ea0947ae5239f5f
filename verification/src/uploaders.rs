//! Where uploaded artifacts live, and the validation of an uploaded archive:
//! the blob paths and download locations derived from a package name and
//! version, and `verify_tarball`, which decompresses an untrusted archive
//! under a size cap, rejects entries that escape the package's own
//! directory or smuggle links, and computes the checksum of record over the
//! raw compressed bytes.

use vstd::prelude::*;

use std::io::Read;
use vstd::string::StrSliceExecFns;
use vstd::string::StringExecFns;
use vstd::string::StringSliceAdditionalSpecFns;

verus! {

/// The byte value of `-`.
pub const BYTE_DASH: u8 = 45;

/// The byte value of `/`.
pub const BYTE_SLASH: u8 = 47;

/// Where artifacts are stored: a remote bucket (optionally fronted by a
/// CDN), or a local directory during development.
pub enum Uploader {
    S3 { bucket_host: String, cdn: Option<String> },
    Local,
}

/// Why an uploaded archive was rejected.
#[derive(PartialEq, Eq, Structural, Clone, Copy, Debug)]
pub enum ArchiveError {
    /// The decompressed contents overran the configured cap.
    TooLarge,
    /// The archive could not be read, an entry escapes the package's own
    /// directory, or an entry is a hard link or symlink.
    Malformed,
}

/// `crates/{name}/{name}-{version}.crate`
pub open spec fn spec_crate_path(name: Seq<char>, version: Seq<char>) -> Seq<char> {
    "crates/"@ + name + "/"@ + name + "-"@ + version + ".crate"@
}

/// `readmes/{name}/{name}-{version}.html`
pub open spec fn spec_readme_path(name: Seq<char>, version: Seq<char>) -> Seq<char> {
    "readmes/"@ + name + "/"@ + name + "-"@ + version + ".html"@
}

/// The storage path of a version's archive blob.
pub fn crate_path(name: &str, version: &str) -> (r: String)
    ensures
        r@ == spec_crate_path(name@, version@),
{
    let mut out = String::new();
    out.append("crates/");
    out.append(name);
    out.append("/");
    out.append(name);
    out.append("-");
    out.append(version);
    out.append(".crate");
    proof {
        assert(out@ =~= spec_crate_path(name@, version@));
    }
    out
}

/// The storage path of a version's rendered readme blob.
pub fn readme_path(name: &str, version: &str) -> (r: String)
    ensures
        r@ == spec_readme_path(name@, version@),
{
    let mut out = String::new();
    out.append("readmes/");
    out.append(name);
    out.append("/");
    out.append(name);
    out.append("-");
    out.append(version);
    out.append(".html");
    proof {
        assert(out@ =~= spec_readme_path(name@, version@));
    }
    out
}

impl Uploader {
    /// The host downloads are served from: the CDN when one is configured,
    /// else the bucket itself.
    pub open spec fn spec_host(self) -> Seq<char>
        recommends
            self is S3,
    {
        match self {
            Uploader::S3 { bucket_host, cdn } => match cdn {
                Some(c) => c@,
                None => bucket_host@,
            },
            Uploader::Local => Seq::empty(),
        }
    }

    /// The URL of an uploaded version archive. Does not check that the file
    /// exists.
    pub fn crate_location(&self, crate_name: &str, version: &str) -> (r: String)
        ensures
            self is S3 ==> r@ == "https://"@ + self.spec_host() + "/"@ + spec_crate_path(
                crate_name@,
                version@,
            ),
            self is Local ==> r@ == "/"@ + spec_crate_path(crate_name@, version@),
    {
        let path = crate_path(crate_name, version);
        let mut out = String::new();
        match self {
            Uploader::S3 { bucket_host, cdn } => {
                out.append("https://");
                match cdn {
                    Some(c) => out.append(c.as_str()),
                    None => out.append(bucket_host.as_str()),
                }
                out.append("/");
                out.append(path.as_str());
            },
            Uploader::Local => {
                out.append("/");
                out.append(path.as_str());
            },
        }
        out
    }

    /// The URL of an uploaded version readme. Does not check that the file
    /// exists.
    pub fn readme_location(&self, crate_name: &str, version: &str) -> (r: String)
        ensures
            self is S3 ==> r@ == "https://"@ + self.spec_host() + "/"@ + spec_readme_path(
                crate_name@,
                version@,
            ),
            self is Local ==> r@ == "/"@ + spec_readme_path(crate_name@, version@),
    {
        let path = readme_path(crate_name, version);
        let mut out = String::new();
        match self {
            Uploader::S3 { bucket_host, cdn } => {
                out.append("https://");
                match cdn {
                    Some(c) => out.append(c.as_str()),
                    None => out.append(bucket_host.as_str()),
                }
                out.append("/");
                out.append(path.as_str());
            },
            Uploader::Local => {
                out.append("/");
                out.append(path.as_str());
            },
        }
        out
    }
}

/// A version's archive blob and its readme blob never share a path.
pub proof fn lemma_artifact_paths_distinct(name: Seq<char>, vers: Seq<char>)
    ensures
        spec_crate_path(name, vers) != spec_readme_path(name, vers),
{
    reveal_strlit("crates/");
    reveal_strlit("readmes/");
    let a = spec_crate_path(name, vers);
    let b = spec_readme_path(name, vers);
    assert(a[0] == 'c' && b[0] == 'r');
}

/// What gzip decompression of the given bytes yields, or `None` where the
/// bytes are no valid gzip stream.
pub uninterp spec fn inflate_of(b: Seq<u8>) -> Option<Seq<u8>>;

/// Relies on flate2's `GzDecoder`: gzip decompression is a function of the
/// compressed bytes alone, and the decoder reports invalid streams as read
/// errors. It is read through a cap of `max + 1` bytes, so decompression
/// never materializes more than that; a result comes back exactly when the
/// stream is valid and fits under the cap. A decode error means the stream
/// is invalid; an overrun means only that more than `max` bytes came out
/// before the stream ended or turned invalid.
#[verifier::external_body]
fn gunzip_limited(b: &Vec<u8>, max: u64) -> (r: Result<Vec<u8>, ArchiveError>)
    ensures
        r is Ok <==> (inflate_of(b@) matches Some(i) && i.len() <= max),
        r matches Ok(v) ==> inflate_of(b@) == Some(v@),
        r matches Err(e) ==> e == ArchiveError::TooLarge || e == ArchiveError::Malformed,
        (r matches Err(e) && e == ArchiveError::Malformed) ==> inflate_of(b@) is None,
{
    let mut out = Vec::new();
    let decoder = flate2::read::GzDecoder::new(b.as_slice());
    match decoder.take(max.saturating_add(1)).read_to_end(&mut out) {
        Err(_) => Err(ArchiveError::Malformed),
        Ok(_) => {
            if out.len() as u64 > max {
                Err(ArchiveError::TooLarge)
            } else {
                Ok(out)
            }
        },
    }
}

/// What one archive entry looks like to the validator: its path bytes and
/// whether it is a link.
pub struct TarEntry {
    pub path: Vec<u8>,
    pub is_hard_link: bool,
    pub is_symlink: bool,
}

/// The entries of a tar archive, or `None` where the bytes are no readable
/// archive.
pub uninterp spec fn tar_entries_of(b: Seq<u8>) -> Option<Seq<(Seq<u8>, bool, bool)>>;

/// Relies on the tar crate: `Archive::entries` walks the archive's entries
/// in order, `Entry::path_bytes` is the entry's raw path and
/// `EntryType::is_hard_link` / `is_symlink` classify its header — all
/// functions of the archive bytes alone.
#[verifier::external_body]
fn read_tar_entries(b: &Vec<u8>) -> (r: Result<Vec<TarEntry>, ArchiveError>)
    ensures
        r matches Ok(v) ==> tar_entries_of(b@) == Some(
            v@.map_values(|e: TarEntry| (e.path@, e.is_hard_link, e.is_symlink)),
        ),
        r is Err ==> tar_entries_of(b@) is None,
        r matches Err(e) ==> e == ArchiveError::Malformed,
{
    let mut archive = tar::Archive::new(b.as_slice());
    let mut out = Vec::new();
    let entries = archive.entries().map_err(|_| ArchiveError::Malformed)?;
    for entry in entries {
        let entry = entry.map_err(|_| ArchiveError::Malformed)?;
        let t = entry.header().entry_type();
        out.push(
            TarEntry {
                path: entry.path_bytes().to_vec(),
                is_hard_link: t.is_hard_link(),
                is_symlink: t.is_symlink(),
            },
        );
    }
    Ok(out)
}

/// The SHA-256 digest of the given bytes.
pub uninterp spec fn sha256_of(b: Seq<u8>) -> Seq<u8>;

/// Relies on openssl's `sha::sha256`: a 32-byte digest that is a function
/// of the data alone.
#[verifier::external_body]
pub(crate) fn hash(data: &Vec<u8>) -> (r: Vec<u8>)
    ensures
        r@ == sha256_of(data@),
        r@.len() == 32,
{
    openssl::sha::sha256(data.as_slice()).to_vec()
}

/// The lowercase hex digit for a value below 16.
pub open spec fn spec_hex_digit(n: int) -> char {
    if n == 0 {
        '0'
    } else if n == 1 {
        '1'
    } else if n == 2 {
        '2'
    } else if n == 3 {
        '3'
    } else if n == 4 {
        '4'
    } else if n == 5 {
        '5'
    } else if n == 6 {
        '6'
    } else if n == 7 {
        '7'
    } else if n == 8 {
        '8'
    } else if n == 9 {
        '9'
    } else if n == 10 {
        'a'
    } else if n == 11 {
        'b'
    } else if n == 12 {
        'c'
    } else if n == 13 {
        'd'
    } else if n == 14 {
        'e'
    } else {
        'f'
    }
}

/// Lowercase hex of a byte string: two digits per byte, high nibble first.
pub open spec fn spec_hex(b: Seq<u8>) -> Seq<char> {
    Seq::new(
        2 * b.len(),
        |i: int|
            if i % 2 == 0 {
                spec_hex_digit(b[i / 2] as int / 16)
            } else {
                spec_hex_digit(b[i / 2] as int % 16)
            },
    )
}

/// Relies on `hex::encode`: lowercase hex, two digits per byte, high nibble
/// first.
#[verifier::external_body]
pub(crate) fn hex_encode(b: &Vec<u8>) -> (r: String)
    ensures
        r@ == spec_hex(b@),
{
    hex::encode(b.as_slice())
}

/// Whether `prefix` is a byte-prefix of `path`.
pub open spec fn spec_has_prefix(path: Seq<u8>, prefix: Seq<u8>) -> bool {
    prefix.len() <= path.len() && path.subrange(0, prefix.len() as int) == prefix
}

/// An acceptable archive entry: inside the package's own directory, and not
/// a link of either kind.
pub open spec fn spec_entry_ok(e: (Seq<u8>, bool, bool), prefix: Seq<u8>) -> bool {
    spec_has_prefix(e.0, prefix) && !e.1 && !e.2
}

fn has_prefix(path: &Vec<u8>, prefix: &Vec<u8>) -> (r: bool)
    ensures
        r == spec_has_prefix(path@, prefix@),
{
    let m = prefix.len();
    if m > path.len() {
        return false;
    }
    let mut i: usize = 0;
    while i < m
        invariant
            0 <= i <= m,
            m == prefix@.len() <= path@.len(),
            forall|j: int| 0 <= j < i ==> path@[j] == prefix@[j],
        decreases m - i,
    {
        if path[i] != prefix[i] {
            return false;
        }
        i += 1;
    }
    proof {
        assert(path@.subrange(0, m as int) =~= prefix@);
    }
    true
}

/// Check every entry of an archive against the package's directory prefix:
/// accepts exactly when every entry path starts with the prefix and no
/// entry is a hard link or symlink.
pub fn check_entries(entries: &Vec<TarEntry>, prefix: &Vec<u8>) -> (r: Result<(), ArchiveError>)
    ensures
        r matches Ok(()) <==> (forall|i: int|
            0 <= i < entries@.len() ==> spec_entry_ok(
                ((#[trigger] entries@[i]).path@, entries@[i].is_hard_link, entries@[i].is_symlink),
                prefix@,
            )),
        r matches Err(e) ==> e == ArchiveError::Malformed,
{
    let n = entries.len();
    let mut i: usize = 0;
    while i < n
        invariant
            0 <= i <= n,
            n == entries@.len(),
            forall|j: int|
                0 <= j < i ==> spec_entry_ok(
                    ((#[trigger] entries@[j]).path@, entries@[j].is_hard_link, entries@[j].is_symlink),
                    prefix@,
                ),
        decreases n - i,
    {
        let e = &entries[i];
        if !has_prefix(&e.path, prefix) || e.is_hard_link || e.is_symlink {
            return Err(ArchiveError::Malformed);
        }
        i += 1;
    }
    Ok(())
}

/// The `{name}-{version}/` directory prefix every entry must live under.
pub open spec fn spec_entry_prefix(name: &str, version: &str) -> Seq<u8> {
    name.spec_bytes() + seq![BYTE_DASH] + version.spec_bytes() + seq![BYTE_SLASH]
}

/// A well-formed upload: the bytes are a valid gzip stream whose contents
/// fit under the cap and read as a tar archive every entry of which lives
/// under the given directory prefix and is no hard link or symlink.
pub open spec fn spec_archive_ok(tarball: Seq<u8>, prefix: Seq<u8>, max_unpack: u64) -> bool {
    &&& inflate_of(tarball) matches Some(i) && i.len() <= max_unpack
    &&& tar_entries_of(inflate_of(tarball).unwrap()) matches Some(es) && (forall|k: int|
        0 <= k < es.len() ==> spec_entry_ok(#[trigger] es[k], prefix))
}

/// Validate an uploaded archive and compute its checksum of record.
///
/// The archive is decompressed under the `max_unpack` cap; every entry must
/// live under `{name}-{version}/` (an entry of another package's directory
/// was historically a cross-package overwrite) and must not be a hard link
/// or symlink. Validation succeeds exactly on well-formed uploads, and the
/// returned checksum is the SHA-256 digest of the raw compressed bytes,
/// not of the decompressed contents.
pub fn verify_tarball(name: &str, version: &str, tarball: &Vec<u8>, max_unpack: u64) -> (r: Result<
    Vec<u8>,
    ArchiveError,
>)
    ensures
        r is Ok <==> spec_archive_ok(tarball@, spec_entry_prefix(name, version), max_unpack),
        r matches Ok(cksum) ==> cksum@ == sha256_of(tarball@) && cksum@.len() == 32,
{
    let inflated = gunzip_limited(tarball, max_unpack)?;
    let entries = read_tar_entries(&inflated)?;
    let mut prefix = name.as_bytes_vec();
    prefix.push(BYTE_DASH);
    let mut vbytes = version.as_bytes_vec();
    prefix.append(&mut vbytes);
    prefix.push(BYTE_SLASH);
    proof {
        assert(prefix@ =~= spec_entry_prefix(name, version));
    }
    match check_entries(&entries, &prefix) {
        Ok(()) => {},
        Err(e) => {
            proof {
                let i = inflate_of(tarball@).unwrap();
                assert(i == inflated@);
                let es = tar_entries_of(i).unwrap();
                assert(es == entries@.map_values(
                    |t: TarEntry| (t.path@, t.is_hard_link, t.is_symlink),
                ));
                if forall|k: int|
                    0 <= k < es.len() ==> spec_entry_ok(#[trigger] es[k], prefix@) {
                    assert forall|k: int|
                        0 <= k < entries@.len() implies spec_entry_ok(
                        ((#[trigger] entries@[k]).path@, entries@[k].is_hard_link, entries@[k].is_symlink),
                        prefix@,
                    ) by {
                        assert(es[k] == (
                            entries@[k].path@,
                            entries@[k].is_hard_link,
                            entries@[k].is_symlink,
                        ));
                    }
                    assert(false);
                }
            }
            return Err(e);
        },
    }
    proof {
        let es = tar_entries_of(inflate_of(tarball@).unwrap()).unwrap();
        assert forall|k: int|
            0 <= k < es.len() implies spec_entry_ok(#[trigger] es[k], prefix@) by {
            assert(es[k] == (entries@[k].path@, entries@[k].is_hard_link, entries@[k].is_symlink));
        }
    }
    Ok(hash(tarball))
}

} // verus!
