//! The blob store the publish pipeline writes artifacts to, and the rollback
//! guard ("bomb") that deletes an uploaded artifact unless the surrounding
//! operation commits: a stored artifact never outlives a failed publish.
//!
//! The store is addressed by path; which puts fail is part of the store's
//! state (an injectable fault seam), so every caller is verified against
//! both outcomes of every upload.

use vstd::prelude::*;

verus! {

/// A content-addressed blob store: one blob per path, plus the set of paths
/// whose puts currently fail.
pub struct BlobStore {
    pub blobs: Vec<(String, Vec<u8>)>,
    pub fail_paths: Vec<String>,
}

impl BlobStore {
    /// One blob per path.
    pub open spec fn wf(self) -> bool {
        forall|i: int, j: int|
            0 <= i < j < self.blobs@.len() ==> (#[trigger] self.blobs@[i]).0@ != (
            #[trigger] self.blobs@[j]).0@
    }

    /// The bytes stored at a path, if any.
    pub open spec fn spec_get(self, path: Seq<char>) -> Option<Seq<u8>> {
        if exists|i: int| 0 <= i < self.blobs@.len() && (#[trigger] self.blobs@[i]).0@ == path {
            Some(
                self.blobs@[choose|i: int|
                    0 <= i < self.blobs@.len() && (#[trigger] self.blobs@[i]).0@ == path].1@,
            )
        } else {
            None
        }
    }

    /// Whether a put to this path fails.
    pub open spec fn spec_fails(self, path: Seq<char>) -> bool {
        exists|i: int| 0 <= i < self.fail_paths@.len() && (#[trigger] self.fail_paths@[i])@ == path
    }

    pub fn new() -> (r: BlobStore)
        ensures
            r.wf(),
            r.blobs@.len() == 0,
            r.fail_paths@.len() == 0,
    {
        BlobStore { blobs: Vec::new(), fail_paths: Vec::new() }
    }

    fn fails(&self, path: &str) -> (r: bool)
        ensures
            r == self.spec_fails(path@),
    {
        let mut i: usize = 0;
        let n = self.fail_paths.len();
        while i < n
            invariant
                0 <= i <= n,
                n == self.fail_paths@.len(),
                forall|j: int| 0 <= j < i ==> (#[trigger] self.fail_paths@[j])@ != path@,
            decreases n - i,
        {
            if crate::index_format::str_equal(self.fail_paths[i].as_str(), path) {
                return true;
            }
            i += 1;
        }
        false
    }

    /// Store `bytes` at `path`, replacing whatever was there; fails, leaving
    /// the store untouched, exactly when the path is in the failing set.
    pub fn put(&mut self, path: String, bytes: Vec<u8>) -> (r: Result<(), ()>)
        requires
            old(self).wf(),
        ensures
            final(self).wf(),
            final(self).fail_paths@ == old(self).fail_paths@,
            r is Ok <==> !old(self).spec_fails(path@),
            r is Ok ==> final(self).spec_get(path@) == Some(bytes@) && (forall|q: Seq<char>|
                q != path@ ==> #[trigger] final(self).spec_get(q) == old(self).spec_get(q)),
            r is Err ==> *final(self) == *old(self),
    {
        if self.fails(path.as_str()) {
            return Err(());
        }
        let n = self.blobs.len();
        let mut i: usize = 0;
        while i < n
            invariant
                0 <= i <= n,
                n == self.blobs@.len(),
                self == old(self),
                old(self).wf(),
                !old(self).spec_fails(path@),
                forall|j: int| 0 <= j < i ==> (#[trigger] self.blobs@[j]).0@ != path@,
            decreases n - i,
        {
            if crate::index_format::str_equal(self.blobs[i].0.as_str(), path.as_str()) {
                let ghost p = path@;
                self.blobs.set(i, (path, bytes));
                proof {
                    self.lemma_get_after_set(*old(self), i as int, p);
                }
                return Ok(());
            }
            i += 1;
        }
        self.blobs.push((path, bytes));
        proof {
            let ghost p = self.blobs@.last().0@;
            assert forall|q: Seq<char>| q != p implies #[trigger] self.spec_get(q) == old(
                self,
            ).spec_get(q) by {
                self.lemma_get_frame(*old(self), self.blobs@.len() - 1, q);
            }
            assert(self.blobs@[self.blobs@.len() - 1].0@ == p);
        }
        Ok(())
    }

    /// Remove the blob at `path`, if any; other paths are untouched.
    pub fn delete(&mut self, path: &str) -> (r: Result<(), ()>)
        requires
            old(self).wf(),
        ensures
            final(self).wf(),
            final(self).fail_paths@ == old(self).fail_paths@,
            r is Ok,
            final(self).spec_get(path@) is None,
            forall|q: Seq<char>|
                q != path@ ==> #[trigger] final(self).spec_get(q) == old(self).spec_get(q),
    {
        let n = self.blobs.len();
        let mut i: usize = 0;
        while i < n
            invariant
                0 <= i <= n,
                n == self.blobs@.len(),
                self == old(self),
                old(self).wf(),
                forall|j: int| 0 <= j < i ==> (#[trigger] self.blobs@[j]).0@ != path@,
            decreases n - i,
        {
            if crate::index_format::str_equal(self.blobs[i].0.as_str(), path) {
                self.blobs.remove(i);
                proof {
                    assert(forall|j: int|
                        0 <= j < self.blobs@.len() ==> #[trigger] self.blobs@[j] == (if j < i {
                            old(self).blobs@[j]
                        } else {
                            old(self).blobs@[j + 1]
                        }));
                    assert forall|q: Seq<char>| q != path@ implies #[trigger] self.spec_get(q)
                        == old(self).spec_get(q) by {
                        self.lemma_get_after_remove(*old(self), i as int, q);
                    }
                }
                return Ok(());
            }
            i += 1;
        }
        Ok(())
    }

    /// Framing for `spec_get` across an update of one slot to the same path.
    proof fn lemma_get_after_set(self, prev: BlobStore, i: int, p: Seq<char>)
        requires
            prev.wf(),
            0 <= i < prev.blobs@.len(),
            prev.blobs@[i].0@ == p,
            self.blobs@.len() == prev.blobs@.len(),
            self.blobs@[i].0@ == p,
            forall|j: int| 0 <= j < prev.blobs@.len() && j != i ==> self.blobs@[j] == prev.blobs@[j],
        ensures
            self.wf(),
            self.spec_get(p) == Some(self.blobs@[i].1@),
            forall|q: Seq<char>| q != p ==> #[trigger] self.spec_get(q) == prev.spec_get(q),
    {
        assert forall|q: Seq<char>| q != p implies #[trigger] self.spec_get(q) == prev.spec_get(
            q,
        ) by {
            if exists|k: int| 0 <= k < self.blobs@.len() && (#[trigger] self.blobs@[k]).0@ == q {
                let k = choose|k: int|
                    0 <= k < self.blobs@.len() && (#[trigger] self.blobs@[k]).0@ == q;
                assert(k != i);
                assert(prev.blobs@[k].0@ == q);
                let k2 = choose|k2: int|
                    0 <= k2 < prev.blobs@.len() && (#[trigger] prev.blobs@[k2]).0@ == q;
                assert(k2 == k);
            } else {
                if exists|k2: int|
                    0 <= k2 < prev.blobs@.len() && (#[trigger] prev.blobs@[k2]).0@ == q {
                    let k2 = choose|k2: int|
                        0 <= k2 < prev.blobs@.len() && (#[trigger] prev.blobs@[k2]).0@ == q;
                    assert(k2 != i);
                    assert(self.blobs@[k2].0@ == q);
                }
            }
        }
        let k = choose|k: int| 0 <= k < self.blobs@.len() && (#[trigger] self.blobs@[k]).0@ == p;
        assert(self.blobs@[i].0@ == p);
        assert(k == i);
    }

    /// Framing for `spec_get` at paths other than the one pushed last.
    proof fn lemma_get_frame(self, prev: BlobStore, last: int, q: Seq<char>)
        requires
            prev.wf(),
            self.blobs@.len() == prev.blobs@.len() + 1,
            last == prev.blobs@.len(),
            forall|j: int| 0 <= j < prev.blobs@.len() ==> self.blobs@[j] == prev.blobs@[j],
            self.blobs@[last].0@ != q,
        ensures
            self.spec_get(q) == prev.spec_get(q),
    {
        if exists|k: int| 0 <= k < self.blobs@.len() && (#[trigger] self.blobs@[k]).0@ == q {
            let k = choose|k: int|
                0 <= k < self.blobs@.len() && (#[trigger] self.blobs@[k]).0@ == q;
            assert(k != last);
            assert(prev.blobs@[k].0@ == q);
            let k2 = choose|k2: int|
                0 <= k2 < prev.blobs@.len() && (#[trigger] prev.blobs@[k2]).0@ == q;
            assert(prev.blobs@[k2].0@ == q && self.blobs@[k2].0@ == q);
        } else {
            if exists|k2: int| 0 <= k2 < prev.blobs@.len() && (#[trigger] prev.blobs@[k2]).0@
                == q {
                let k2 = choose|k2: int|
                    0 <= k2 < prev.blobs@.len() && (#[trigger] prev.blobs@[k2]).0@ == q;
                assert(self.blobs@[k2].0@ == q);
            }
        }
    }

    /// Framing for `spec_get` across removal of one slot.
    proof fn lemma_get_after_remove(self, prev: BlobStore, i: int, q: Seq<char>)
        requires
            prev.wf(),
            0 <= i < prev.blobs@.len(),
            prev.blobs@[i].0@ != q,
            self.blobs@.len() == prev.blobs@.len() - 1,
            forall|j: int|
                0 <= j < self.blobs@.len() ==> #[trigger] self.blobs@[j] == (if j < i {
                    prev.blobs@[j]
                } else {
                    prev.blobs@[j + 1]
                }),
        ensures
            self.spec_get(q) == prev.spec_get(q),
    {
        if exists|k: int| 0 <= k < self.blobs@.len() && (#[trigger] self.blobs@[k]).0@ == q {
            let k = choose|k: int|
                0 <= k < self.blobs@.len() && (#[trigger] self.blobs@[k]).0@ == q;
            let ghost ko = if k < i {
                k
            } else {
                k + 1
            };
            assert(prev.blobs@[ko].0@ == q);
            let k2 = choose|k2: int|
                0 <= k2 < prev.blobs@.len() && (#[trigger] prev.blobs@[k2]).0@ == q;
            assert(k2 == ko);
            assert(self.blobs@[k].1@ == prev.blobs@[ko].1@);
        } else {
            if exists|k2: int| 0 <= k2 < prev.blobs@.len() && (#[trigger] prev.blobs@[k2]).0@
                == q {
                let k2 = choose|k2: int|
                    0 <= k2 < prev.blobs@.len() && (#[trigger] prev.blobs@[k2]).0@ == q;
                assert(k2 != i);
                let ghost kn = if k2 < i {
                    k2
                } else {
                    k2 - 1
                };
                assert(self.blobs@[kn].0@ == q);
            }
        }
    }
}

/// A scoped rollback guard over one uploaded blob: unless disarmed, its
/// release deletes the blob, so an artifact never outlives a publish that
/// did not commit. Disarming is the last step of the happy path.
pub struct Bomb {
    pub path: Option<String>,
}

impl Bomb {
    /// The path this guard still protects, if it is armed.
    pub open spec fn spec_path(self) -> Option<Seq<char>> {
        match self.path {
            Some(p) => Some(p@),
            None => None,
        }
    }

    pub fn armed(path: String) -> (r: Bomb)
        ensures
            r.spec_path() == Some(path@),
    {
        Bomb { path: Some(path) }
    }

    /// A guard protecting nothing; releasing it does nothing.
    pub fn disarmed() -> (r: Bomb)
        ensures
            r.spec_path() is None,
    {
        Bomb { path: None }
    }

    /// Commit: the artifact stays whatever happens after this.
    pub fn disarm(&mut self)
        ensures
            final(self).spec_path() is None,
    {
        self.path = None;
    }

    /// Abandon the operation: delete the protected artifact, if the guard
    /// is still armed.
    pub fn release(self, store: &mut BlobStore)
        requires
            old(store).wf(),
        ensures
            final(store).wf(),
            final(store).fail_paths@ == old(store).fail_paths@,
            match self.spec_path() {
                Some(p) => final(store).spec_get(p) is None && (forall|q: Seq<char>|
                    q != p ==> #[trigger] final(store).spec_get(q) == old(store).spec_get(q)),
                None => *final(store) == *old(store),
            },
    {
        match self.path {
            Some(p) => {
                let _ = store.delete(p.as_str());
            },
            None => {},
        }
    }
}

} // verus!
