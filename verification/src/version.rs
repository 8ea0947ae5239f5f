//! Versions of a package as the database records them, and the validation
//! of a declared license expression: an expression is a `/`-separated list
//! of parts, each of which must be a recognised license term.

use vstd::prelude::*;

use vstd::string::StrSliceExecFns;
use vstd::string::StringExecFns;

verus! {

/// One published version of a package, as the database records it.
pub struct Version {
    pub id: i32,
    pub crate_id: i32,
    pub num: String,
    pub created_at: i64,
    pub updated_at: i64,
    pub downloads: i32,
    pub size: u64,
    pub cksum: String,
    pub license: Option<String>,
    pub yanked: bool,
}

/// The links a version's encodable form carries.
#[derive(Debug)]
pub struct VersionLinks {
    pub dependencies: String,
    pub version_downloads: String,
    pub authors: String,
}

/// The wire form of a version: its record fields plus the API paths
/// derived from the crate name and version number.
#[derive(Debug)]
pub struct EncodableVersion {
    pub id: i32,
    pub krate: String,
    pub num: String,
    pub dl_path: String,
    pub readme_path: String,
    pub updated_at: i64,
    pub created_at: i64,
    pub downloads: i32,
    pub yanked: bool,
    pub license: Option<String>,
    pub links: VersionLinks,
}

/// `/api/v1/crates/{name}/{num}/{what}`
pub open spec fn spec_api_path(name: Seq<char>, num: Seq<char>, what: Seq<char>) -> Seq<char> {
    "/api/v1/crates/"@ + name + "/"@ + num + "/"@ + what
}

fn api_path(name: &str, num: &str, what: &str) -> (r: String)
    ensures
        r@ == spec_api_path(name@, num@, what@),
{
    let mut out = String::new();
    out.append("/api/v1/crates/");
    out.append(name);
    out.append("/");
    out.append(num);
    out.append("/");
    out.append(what);
    proof {
        assert(out@ =~= spec_api_path(name@, num@, what@));
    }
    out
}

impl Version {
    /// The wire form of this version under the given crate name.
    pub fn encodable(self, crate_name: &str) -> (r: EncodableVersion)
        ensures
            r.id == self.id,
            r.krate@ == crate_name@,
            r.num@ == self.num@,
            r.updated_at == self.updated_at,
            r.created_at == self.created_at,
            r.downloads == self.downloads,
            r.yanked == self.yanked,
            r.license == self.license,
            r.dl_path@ == spec_api_path(crate_name@, self.num@, "download"@),
            r.readme_path@ == spec_api_path(crate_name@, self.num@, "readme"@),
            r.links.dependencies@ == spec_api_path(crate_name@, self.num@, "dependencies"@),
            r.links.version_downloads@ == spec_api_path(crate_name@, self.num@, "downloads"@),
            r.links.authors@ == spec_api_path(crate_name@, self.num@, "authors"@),
    {
        let dl_path = api_path(crate_name, self.num.as_str(), "download");
        let readme_path = api_path(crate_name, self.num.as_str(), "readme");
        let links = VersionLinks {
            dependencies: api_path(crate_name, self.num.as_str(), "dependencies"),
            version_downloads: api_path(crate_name, self.num.as_str(), "downloads"),
            authors: api_path(crate_name, self.num.as_str(), "authors"),
        };
        EncodableVersion {
            id: self.id,
            krate: crate_name.to_owned(),
            num: self.num,
            dl_path,
            readme_path,
            updated_at: self.updated_at,
            created_at: self.created_at,
            downloads: self.downloads,
            yanked: self.yanked,
            license: self.license,
            links,
        }
    }
}

/// Whether a license term is accepted.
pub uninterp spec fn license_expr_ok(s: Seq<char>) -> bool;

/// Relies on `license_exprs::validate_license_expr`: acceptance of an
/// expression is a function of the expression alone.
#[verifier::external_body]
fn license_part_valid(part: &str) -> (r: bool)
    ensures
        r == license_expr_ok(part@),
{
    license_exprs::validate_license_expr(part).is_ok()
}

/// The parts interleaved with `/` separators.
pub open spec fn spec_join_slash(parts: Seq<Seq<char>>) -> Seq<char>
    decreases parts.len(),
{
    if parts.len() == 0 {
        Seq::empty()
    } else if parts.len() == 1 {
        parts[0]
    } else {
        spec_join_slash(parts.drop_last()) + "/"@ + parts.last()
    }
}

proof fn lemma_join_slash_step(parts: Seq<Seq<char>>, i: int)
    requires
        0 <= i < parts.len(),
    ensures
        spec_join_slash(parts.take(i + 1)) == if i == 0 {
            parts[0]
        } else {
            spec_join_slash(parts.take(i)) + "/"@ + parts[i]
        },
{
    let t = parts.take(i + 1);
    if i == 0 {
        assert(t.len() == 1);
        assert(t[0] == parts[0]);
    } else {
        assert(t.drop_last() =~= parts.take(i));
        assert(t.last() == parts[i]);
    }
}

/// Split on `/`: the returned parts contain no `/` and joined with `/` they
/// give back the input.
fn split_slash(s: &str) -> (r: Vec<String>)
    ensures
        r@.len() >= 1,
        spec_join_slash(r@.map_values(|p: String| p@)) == s@,
        forall|k: int, m: int|
            0 <= k < r@.len() && 0 <= m < r@[k]@.len() ==> #[trigger] r@[k]@[m] != '/',
{
    let n = s.unicode_len();
    let mut out: Vec<String> = Vec::new();
    let mut start: usize = 0;
    let mut i: usize = 0;
    while i < n
        invariant
            0 <= start <= i <= n,
            n == s@.len(),
            forall|m: int| start <= m < i ==> s@[m] != '/',
            forall|k: int, m: int|
                0 <= k < out@.len() && 0 <= m < out@[k]@.len() ==> #[trigger] out@[k]@[m] != '/',
            out@.len() == 0 ==> start == 0,
            out@.len() > 0 ==> 1 <= start && s@[start - 1] == '/' && spec_join_slash(
                out@.map_values(|p: String| p@),
            ) == s@.take(start - 1),
        decreases n - i,
    {
        if s.get_char(i) == '/' {
            let part = s.substring_char(start, i).to_owned();
            let ghost parts = out@.map_values(|p: String| p@);
            let ghost piece = s@.subrange(start as int, i as int);
            out.push(part);
            proof {
                assert(out@.map_values(|p: String| p@) =~= parts.push(piece));
                lemma_join_slash_step(parts.push(piece), parts.len() as int);
                assert(parts.push(piece).take(parts.len() as int) =~= parts);
                assert(parts.push(piece).take(parts.len() as int + 1) =~= parts.push(piece));
                if parts.len() == 0 {
                    assert(spec_join_slash(parts.push(piece)) =~= s@.take(i as int));
                } else {
                    reveal_strlit("/");
                    assert(spec_join_slash(parts.push(piece)) =~= s@.take(start - 1) + "/"@
                        + piece);
                    assert(s@.take(start - 1) + "/"@ + piece =~= s@.take(i as int));
                }
            }
            start = i + 1;
        }
        i += 1;
    }
    let last = s.substring_char(start, n).to_owned();
    let ghost parts = out@.map_values(|p: String| p@);
    let ghost piece = s@.subrange(start as int, n as int);
    out.push(last);
    proof {
        assert(out@.map_values(|p: String| p@) =~= parts.push(piece));
        lemma_join_slash_step(parts.push(piece), parts.len() as int);
        assert(parts.push(piece).take(parts.len() as int) =~= parts);
        assert(parts.push(piece).take(parts.len() as int + 1) =~= parts.push(piece));
        if parts.len() == 0 {
            assert(spec_join_slash(parts.push(piece)) =~= s@);
        } else {
            reveal_strlit("/");
            assert(spec_join_slash(parts.push(piece)) =~= s@.take(start - 1) + "/"@ + piece);
            assert(s@.take(start - 1) + "/"@ + piece =~= s@);
        }
    }
    out
}

/// Parts that contain no separator: joined with `/`, such parts are the
/// one and only way to read the expression back.
pub open spec fn spec_slash_free(parts: Seq<Seq<char>>) -> bool {
    forall|k: int, m: int|
        0 <= k < parts.len() && 0 <= m < parts[k].len() ==> #[trigger] parts[k][m] != '/'
}

/// The license was rejected.
#[derive(PartialEq, Eq, Structural, Clone, Copy, Debug)]
pub struct InvalidLicense;

/// Validate a declared license. A declared expression is kept when each of
/// its `/`-separated parts is a recognised term; a package declaring only a
/// license file is recorded as `non-standard`; declaring neither leaves the
/// license empty.
pub fn validate_license(license: Option<&str>, license_file: Option<&str>) -> (r: Result<
    Option<String>,
    InvalidLicense,
>)
    ensures
        match license {
            Some(l) => {
                &&& (r matches Ok(o) ==> o matches Some(s) && s@ == l@)
                &&& (r is Ok ==> exists|parts: Seq<Seq<char>>|
                    spec_join_slash(parts) == l@ && spec_slash_free(parts) && parts.len() >= 1 && (
                    forall|k: int| 0 <= k < parts.len() ==> license_expr_ok(#[trigger] parts[k])))
                &&& (r is Err ==> exists|parts: Seq<Seq<char>>, k: int|
                    spec_join_slash(parts) == l@ && spec_slash_free(parts) && 0 <= k < parts.len()
                        && !license_expr_ok(parts[k]))
            },
            None => r matches Ok(o) && match license_file {
                Some(_) => o matches Some(s) && s@ == "non-standard"@,
                None => o is None,
            },
        },
{
    match license {
        Some(l) => {
            let parts = split_slash(l);
            let n = parts.len();
            let mut i: usize = 0;
            while i < n
                invariant
                    0 <= i <= n,
                    n == parts@.len(),
                    license == Some(l),
                    spec_join_slash(parts@.map_values(|p: String| p@)) == l@,
                    spec_slash_free(parts@.map_values(|p: String| p@)),
                    forall|k: int|
                        0 <= k < i ==> license_expr_ok((#[trigger] parts@[k])@),
                decreases n - i,
            {
                if !license_part_valid(parts[i].as_str()) {
                    proof {
                        let ghost ps = parts@.map_values(|p: String| p@);
                        assert(spec_join_slash(ps) == l@ && spec_slash_free(ps) && 0 <= i
                            < ps.len() && !license_expr_ok(ps[i as int]));
                    }
                    return Err(InvalidLicense);
                }
                i += 1;
            }
            proof {
                let ghost ps = parts@.map_values(|p: String| p@);
                assert(spec_join_slash(ps) == l@ && spec_slash_free(ps) && ps.len() >= 1 && (
                forall|k: int| 0 <= k < ps.len() ==> license_expr_ok(#[trigger] ps[k])));
            }
            Ok(Some(l.to_owned()))
        },
        None => match license_file {
            Some(_) => {
                let s = String::from_str("non-standard");
                Ok(Some(s))
            },
            None => Ok(None),
        },
    }
}

} // verus!
