//! Publish pipeline of a package registry: admission control, archive
//! validation, blob storage with rollback guards, and a git-backed index
//! kept consistent by a commit-push-retry protocol.

use vstd::prelude::*;

pub mod downloads;
pub mod git;
pub mod index_format;
pub mod invitations;
pub mod publish;
pub mod rate_limiter;
pub mod storage;
pub mod tokens;
pub mod uploaders;
pub mod users;
pub mod version;

verus! {

/// Which environment the registry runs in; some defaults differ between them.
#[derive(PartialEq, Eq, Structural, Clone, Copy, Debug)]
pub enum Env {
    Development,
    Test,
    Production,
}

/// Whether this instance is the source of truth or a read-only mirror.
#[derive(PartialEq, Eq, Structural, Clone, Copy, Debug)]
pub enum Replica {
    Primary,
    ReadOnlyMirror,
}

} // verus!
