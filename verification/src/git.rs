//! Records of the git-backed index, the sharded path of a package's record
//! file, the materialization of one index mutation against the current file
//! contents, and the bounded commit-push-retry protocol that makes
//! concurrent writers converge. The git and file-system operations
//! themselves are performed by the caller, which feeds the outcomes back
//! into the protocol's state machine.

use vstd::prelude::*;

use crate::index_format::{
    add_line, all_safe, crate_json_safe, set_yanked_lines, spec_crate_line, spec_flip,
    spec_render, IndexError,
};
use vstd::string::StrSliceExecFns;
use vstd::string::StringExecFns;

verus! {

/// The bound on commit-push attempts before a mutation is given up as
/// `TooManyConflicts`.
pub const MAX_SYNC_ATTEMPTS: u32 = 20;

/// The kind of a dependency edge, as recorded in the index.
#[derive(PartialEq, Eq, Structural, Clone, Copy, Debug)]
pub enum DependencyKind {
    Normal,
    Build,
    Dev,
}

/// One dependency edge of an index record.
#[derive(Debug)]
pub struct Dependency {
    pub name: String,
    pub req: String,
    pub features: Vec<String>,
    pub optional: bool,
    pub default_features: bool,
    pub target: Option<String>,
    pub kind: Option<DependencyKind>,
    pub package: Option<String>,
}

/// One index record: a published version of a package, one line of the
/// package's record file.
#[derive(Debug)]
pub struct Crate {
    pub name: String,
    pub vers: String,
    pub deps: Vec<Dependency>,
    pub cksum: String,
    pub features: Vec<(String, Vec<String>)>,
    pub yanked: Option<bool>,
    pub links: Option<String>,
}

/// Relies on `str::to_lowercase`: the result is a function of the characters
/// alone; it is empty only for empty input, and never shorter than it.
#[verifier::external_body]
fn lowercase(s: &str) -> (r: String)
    ensures
        r@ == lower_of(s@),
        s@.len() == 0 ==> r@.len() == 0,
        r@.len() >= s@.len(),
{
    s.to_lowercase()
}

pub uninterp spec fn lower_of(s: Seq<char>) -> Seq<char>;

/// The relative path of a package's record file: the case-folded name,
/// sharded by name length and leading characters to bound directory fan-out.
pub open spec fn spec_index_path(lower: Seq<char>) -> Seq<char> {
    if lower.len() == 1 {
        "1/"@ + lower
    } else if lower.len() == 2 {
        "2/"@ + lower
    } else if lower.len() == 3 {
        "3/"@ + lower.subrange(0, 1) + "/"@ + lower
    } else {
        lower.subrange(0, 2) + "/"@ + lower.subrange(2, 4) + "/"@ + lower
    }
}

/// The record file for `name`, relative to the index root.
pub fn index_file(name: &str) -> (r: String)
    requires
        name@.len() >= 1,
    ensures
        r@ == spec_index_path(lower_of(name@)),
{
    let lower = lowercase(name);
    let len = lower.as_str().unicode_len();
    let mut out = String::new();
    if len == 1 {
        out.append("1/");
        out.append(lower.as_str());
    } else if len == 2 {
        out.append("2/");
        out.append(lower.as_str());
    } else if len == 3 {
        out.append("3/");
        out.append(lower.as_str().substring_char(0, 1));
        out.append("/");
        out.append(lower.as_str());
    } else {
        out.append(lower.as_str().substring_char(0, 2));
        out.append("/");
        out.append(lower.as_str().substring_char(2, 4));
        out.append("/");
        out.append(lower.as_str());
    }
    proof {
        assert(out@ =~= spec_index_path(lower_of(name@)));
    }
    out
}

/// One logical mutation of the index: append a new version's record, or
/// rewrite the yank flag of an existing one.
pub enum Mutation {
    AddEntry(Crate),
    SetYanked(String, String, bool),
}

/// What one attempt of the protocol ended in.
#[derive(PartialEq, Eq, Structural, Clone, Copy, Debug)]
pub enum SyncStatus {
    /// The remote accepted the ref update: the mutation is in the index.
    Done,
    /// The push was rejected or failed: fetch, reset hard, and re-derive the
    /// mutation against the now-current file contents.
    Retry,
    /// The attempt bound is exhausted: too many conflicting writers.
    Conflict,
}

/// The status after a push outcome at the given attempt count.
pub open spec fn next_status(attempts: u32, accepted: bool) -> SyncStatus {
    if accepted {
        SyncStatus::Done
    } else if attempts + 1 < MAX_SYNC_ATTEMPTS {
        SyncStatus::Retry
    } else {
        SyncStatus::Conflict
    }
}

/// The commit message for a mutation, named after the package and version
/// it touches.
pub open spec fn spec_commit_message(m: Mutation) -> Seq<char> {
    match m {
        Mutation::AddEntry(e) => "Updating crate `"@ + e.name@ + "#"@ + e.vers@ + "`"@,
        Mutation::SetYanked(n, v, y) => (if y {
            "Yanking crate `"@
        } else {
            "Unyanking crate `"@
        }) + n@ + "#"@ + v@ + "`"@,
    }
}

/// The state of one index mutation working through the commit-push-retry
/// protocol. The caller owns the working copy and the remote: it derives
/// each attempt's file contents with [`IndexSync::materialize`], commits and
/// pushes them, and feeds the outcome to [`IndexSync::record_push`]. The
/// re-derivation against the freshly fetched contents after a rejected push
/// is what makes concurrent writers converge without a lock.
pub struct IndexSync {
    mutation: Mutation,
    attempts: u32,
}

impl IndexSync {
    pub closed spec fn spec_mutation(self) -> Mutation {
        self.mutation
    }

    pub closed spec fn spec_attempts(self) -> u32 {
        self.attempts
    }

    pub fn new(mutation: Mutation) -> (r: IndexSync)
        ensures
            r.spec_mutation() == mutation,
            r.spec_attempts() == 0,
    {
        IndexSync { mutation, attempts: 0 }
    }

    /// How many pushes of this mutation have been rejected so far.
    pub fn attempts(&self) -> (r: u32)
        ensures
            r == self.spec_attempts(),
    {
        self.attempts
    }

    /// The new contents of the package's record file, and the commit
    /// message, for one attempt: derived from the file's current contents
    /// (`None` when the file does not exist yet).
    pub fn materialize(&self, prev: Option<&str>) -> (r: Result<(String, String), IndexError>)
        ensures
            r matches Ok(p) ==> p.1@ == spec_commit_message(self.spec_mutation()),
            match self.spec_mutation() {
                Mutation::AddEntry(e) => {
                    &&& (r matches Ok(p) ==> p.0@ == (match prev {
                        Some(s) => s@,
                        None => Seq::<char>::empty(),
                    }) + spec_crate_line(e) + "\n"@)
                    &&& (r is Ok <==> crate_json_safe(e))
                },
                Mutation::SetYanked(n, v, y) => {
                    &&& (r matches Ok(p) ==> exists|es: Seq<Crate>|
                        (match prev {
                            Some(s) => s@,
                            None => Seq::<char>::empty(),
                        }) == #[trigger] spec_render(es) && p.0@ == spec_render(
                            spec_flip(es, n@, v@, y),
                        ) && all_safe(es))
                    &&& (r matches Ok(p) ==> forall|es: Seq<Crate>|
                        (match prev {
                            Some(s) => s@,
                            None => Seq::<char>::empty(),
                        }) == #[trigger] spec_render(es) && all_safe(es) ==> p.0@ == spec_render(
                            spec_flip(es, n@, v@, y),
                        ))
                    &&& (prev is None ==> r is Err)
                },
            },
    {
        match &self.mutation {
            Mutation::AddEntry(e) => {
                let contents = match prev {
                    Some(s) => add_line(s, e)?,
                    None => add_line("", e)?,
                };
                let mut msg = String::new();
                msg.append("Updating crate `");
                msg.append(e.name.as_str());
                msg.append("#");
                msg.append(e.vers.as_str());
                msg.append("`");
                proof {
                    assert(msg@ =~= spec_commit_message(self.spec_mutation()));
                    assert(contents@ =~= (match prev {
                        Some(s) => s@,
                        None => Seq::<char>::empty(),
                    }) + spec_crate_line(*e) + "\n"@) by {
                        reveal_strlit("");
                    }
                }
                Ok((contents, msg))
            },
            Mutation::SetYanked(n, v, y) => {
                let s = match prev {
                    Some(s) => s,
                    None => {
                        return Err(IndexError::CorruptFile);
                    },
                };
                let contents = set_yanked_lines(s, n.as_str(), v.as_str(), *y)?;
                let mut msg = String::new();
                if *y {
                    msg.append("Yanking crate `");
                } else {
                    msg.append("Unyanking crate `");
                }
                msg.append(n.as_str());
                msg.append("#");
                msg.append(v.as_str());
                msg.append("`");
                proof {
                    assert(msg@ =~= spec_commit_message(self.spec_mutation()));
                }
                Ok((contents, msg))
            },
        }
    }

    /// Record the outcome of the push of one attempt: an accepted ref update
    /// finishes the mutation; a rejected or failed push asks the caller to
    /// fetch, hard-reset and retry, until the attempt bound is exhausted.
    pub fn record_push(&mut self, accepted: bool) -> (r: SyncStatus)
        requires
            old(self).spec_attempts() < MAX_SYNC_ATTEMPTS,
        ensures
            r == next_status(old(self).spec_attempts(), accepted),
            final(self).spec_mutation() == old(self).spec_mutation(),
            accepted ==> final(self).spec_attempts() == old(self).spec_attempts(),
            !accepted ==> final(self).spec_attempts() == old(self).spec_attempts() + 1,
    {
        if accepted {
            SyncStatus::Done
        } else {
            self.attempts = self.attempts + 1;
            if self.attempts < MAX_SYNC_ATTEMPTS {
                SyncStatus::Retry
            } else {
                SyncStatus::Conflict
            }
        }
    }
}

/// Two writers adding records to one file converge: the writer whose push
/// lost re-derives its append against the winner's contents, and the final
/// file is the rendering of both records after the ones already there.
pub proof fn lemma_concurrent_adds(es: Seq<Crate>, first: Crate, second: Crate)
    ensures
        spec_render(es) + spec_crate_line(first) + "\n"@ + spec_crate_line(second) + "\n"@
            == spec_render(es.push(first).push(second)),
{
    crate::index_format::lemma_render_push(es, first);
    crate::index_format::lemma_render_push(es.push(first), second);
}

/// A writer whose push at attempt `k` is rejected may retry as long as the
/// bound is not exhausted, and an accepted push at the next attempt finishes
/// the mutation: a single conflict never loses an update.
pub proof fn lemma_rejected_then_accepted(k: u32)
    requires
        k + 1 < MAX_SYNC_ATTEMPTS,
    ensures
        next_status(k, false) == SyncStatus::Retry,
        next_status((k + 1) as u32, true) == SyncStatus::Done,
{
}

} // verus!
