//! Download counting: the endpoint that resolves a version, counts the
//! download and hands back the artifact's location, and the periodic rollup
//! that propagates per-day tallies into the version, crate and global
//! totals and freezes finished days.

use vstd::prelude::*;

use crate::index_format::str_equal;
use crate::publish::{CrateRow, Registry, VersionDownload};
use crate::version::Version;
use crate::uploaders::{spec_crate_path, spec_readme_path, Uploader};

verus! {

/// Why a download request failed.
#[derive(PartialEq, Eq, Structural, Clone, Copy, Debug)]
pub enum DownloadError {
    VersionNotFound,
}

/// The not yet rolled up part of one day's tally.
pub open spec fn spec_amt(d: VersionDownload) -> int {
    if !d.processed && d.downloads != d.counted {
        d.downloads - d.counted
    } else {
        0
    }
}

/// The pending tally of one version over the given rows.
pub open spec fn spec_sum_for_version(rows: Seq<VersionDownload>, vid: i32) -> int
    decreases rows.len(),
{
    if rows.len() == 0 {
        0
    } else {
        spec_sum_for_version(rows.drop_last(), vid) + (if rows.last().version_id == vid {
            spec_amt(rows.last())
        } else {
            0
        })
    }
}

/// The crate a version belongs to.
pub open spec fn spec_version_crate(versions: Seq<Version>, vid: i32) -> Option<i32> {
    if exists|i: int| 0 <= i < versions.len() && (#[trigger] versions[i]).id == vid {
        Some(versions[choose|i: int| 0 <= i < versions.len() && (#[trigger] versions[i]).id == vid].crate_id)
    } else {
        None
    }
}

/// The pending tally of one crate over the given rows.
pub open spec fn spec_sum_for_crate(
    rows: Seq<VersionDownload>,
    versions: Seq<Version>,
    cid: i32,
) -> int
    decreases rows.len(),
{
    if rows.len() == 0 {
        0
    } else {
        spec_sum_for_crate(rows.drop_last(), versions, cid) + (if spec_version_crate(
            versions,
            rows.last().version_id,
        ) == Some(cid) {
            spec_amt(rows.last())
        } else {
            0
        })
    }
}

/// The whole pending tally over the given rows.
pub open spec fn spec_sum_all(rows: Seq<VersionDownload>) -> int
    decreases rows.len(),
{
    if rows.len() == 0 {
        0
    } else {
        spec_sum_all(rows.drop_last()) + spec_amt(rows.last())
    }
}

/// Every row's tally is consistent: nothing is counted twice.
pub open spec fn rows_consistent(rows: Seq<VersionDownload>) -> bool {
    forall|i: int|
        0 <= i < rows.len() ==> 0 <= (#[trigger] rows[i]).counted && rows[i].counted
            <= rows[i].downloads
}

/// The referential and arithmetic assumptions the rollup works under.
pub open spec fn rollup_pre(reg: Registry) -> bool {
    &&& forall|i: int, j: int|
        0 <= i < j < reg.versions@.len() ==> (#[trigger] reg.versions@[i]).id != (
        #[trigger] reg.versions@[j]).id
    &&& forall|i: int, j: int|
        0 <= i < j < reg.crates@.len() ==> (#[trigger] reg.crates@[i]).id != (
        #[trigger] reg.crates@[j]).id
    &&& forall|i: int|
        0 <= i < reg.version_downloads@.len() ==> spec_version_crate(
            reg.versions@,
            (#[trigger] reg.version_downloads@[i]).version_id,
        ) is Some
    &&& forall|i: int|
        0 <= i < reg.versions@.len() ==> exists|j: int|
            0 <= j < reg.crates@.len() && (#[trigger] reg.crates@[j]).id == (
            #[trigger] reg.versions@[i]).crate_id
    &&& rows_consistent(reg.version_downloads@)
    &&& forall|i: int|
        0 <= i < reg.versions@.len() ==> 0 <= (#[trigger] reg.versions@[i]).downloads
            && reg.versions@[i].downloads + spec_sum_for_version(
            reg.version_downloads@,
            reg.versions@[i].id,
        ) <= i32::MAX
    &&& forall|i: int|
        0 <= i < reg.crates@.len() ==> 0 <= (#[trigger] reg.crates@[i]).downloads
            && reg.crates@[i].downloads + spec_sum_for_crate(
            reg.version_downloads@,
            reg.versions@,
            reg.crates@[i].id,
        ) <= i32::MAX
    &&& 0 <= reg.total_downloads
    &&& reg.total_downloads + spec_sum_all(reg.version_downloads@) <= i64::MAX
}

/// Every sum of consistent tallies is nonnegative.
proof fn lemma_sums_nonneg(rows: Seq<VersionDownload>, versions: Seq<Version>)
    requires
        rows_consistent(rows),
    ensures
        0 <= spec_sum_all(rows),
        forall|vid: i32| 0 <= #[trigger] spec_sum_for_version(rows, vid),
        forall|cid: i32| 0 <= #[trigger] spec_sum_for_crate(rows, versions, cid),
    decreases rows.len(),
{
    if rows.len() > 0 {
        assert(rows_consistent(rows.drop_last()));
        lemma_sums_nonneg(rows.drop_last(), versions);
        assert(0 <= spec_amt(rows.last()));
        assert forall|vid: i32| 0 <= #[trigger] spec_sum_for_version(rows, vid) by {
            assert(0 <= spec_sum_for_version(rows.drop_last(), vid));
        }
        assert forall|cid: i32| 0 <= #[trigger] spec_sum_for_crate(rows, versions, cid) by {
            assert(0 <= spec_sum_for_crate(rows.drop_last(), versions, cid));
        }
    }
}

/// Prefix sums never exceed the whole: every single tally is nonnegative.
proof fn lemma_sums_monotone(rows: Seq<VersionDownload>, versions: Seq<Version>, i: int)
    requires
        rows_consistent(rows),
        0 <= i <= rows.len(),
    ensures
        0 <= spec_sum_all(rows.take(i)) <= spec_sum_all(rows),
        forall|vid: i32|
            0 <= #[trigger] spec_sum_for_version(rows.take(i), vid) <= spec_sum_for_version(
                rows,
                vid,
            ),
        forall|cid: i32|
            0 <= #[trigger] spec_sum_for_crate(rows.take(i), versions, cid) <= spec_sum_for_crate(
                rows,
                versions,
                cid,
            ),
    decreases rows.len() - i,
{
    assert(rows_consistent(rows.take(i)));
    lemma_sums_nonneg(rows.take(i), versions);
    if i == rows.len() {
        assert(rows.take(i) =~= rows);
    } else {
        lemma_sums_monotone(rows, versions, i + 1);
        lemma_sum_step(rows, versions, i);
        assert(0 <= spec_amt(rows[i]));
        assert forall|vid: i32|
            0 <= #[trigger] spec_sum_for_version(rows.take(i), vid) <= spec_sum_for_version(
                rows,
                vid,
            ) by {
            assert(spec_sum_for_version(rows.take(i + 1), vid) == spec_sum_for_version(
                rows.take(i),
                vid,
            ) + (if rows[i].version_id == vid {
                spec_amt(rows[i])
            } else {
                0
            }));
            assert(spec_sum_for_version(rows.take(i + 1), vid) <= spec_sum_for_version(rows, vid));
        }
        assert forall|cid: i32|
            0 <= #[trigger] spec_sum_for_crate(rows.take(i), versions, cid) <= spec_sum_for_crate(
                rows,
                versions,
                cid,
            ) by {
            assert(spec_sum_for_crate(rows.take(i + 1), versions, cid) == spec_sum_for_crate(
                rows.take(i),
                versions,
                cid,
            ) + (if spec_version_crate(versions, rows[i].version_id) == Some(cid) {
                spec_amt(rows[i])
            } else {
                0
            }));
            assert(spec_sum_for_crate(rows.take(i + 1), versions, cid) <= spec_sum_for_crate(
                rows,
                versions,
                cid,
            ));
        }
    }
}

/// Each sum over `take(i + 1)` unrolled by one row.
proof fn lemma_sum_step(rows: Seq<VersionDownload>, versions: Seq<Version>, i: int)
    requires
        0 <= i < rows.len(),
    ensures
        spec_sum_all(rows.take(i + 1)) == spec_sum_all(rows.take(i)) + spec_amt(rows[i]),
        forall|vid: i32| #[trigger] spec_sum_for_version(rows.take(i + 1), vid)
            == spec_sum_for_version(rows.take(i), vid) + (if rows[i].version_id == vid {
                spec_amt(rows[i])
            } else {
                0
            }),
        forall|cid: i32| #[trigger] spec_sum_for_crate(rows.take(i + 1), versions, cid)
            == spec_sum_for_crate(rows.take(i), versions, cid) + (if spec_version_crate(
                versions,
                rows[i].version_id,
            ) == Some(cid) {
                spec_amt(rows[i])
            } else {
                0
            }),
{
    assert(rows.take(i + 1).drop_last() =~= rows.take(i));
    assert(rows.take(i + 1).last() == rows[i]);
}

/// The index of the version row with this id.
fn find_version_index(reg: &Registry, vid: i32) -> (r: Option<usize>)
    requires
        forall|i: int, j: int|
            0 <= i < j < reg.versions@.len() ==> (#[trigger] reg.versions@[i]).id != (
            #[trigger] reg.versions@[j]).id,
    ensures
        match r {
            Some(k) => k < reg.versions@.len() && reg.versions@[k as int].id == vid
                && spec_version_crate(reg.versions@, vid) == Some(
                reg.versions@[k as int].crate_id,
            ),
            None => spec_version_crate(reg.versions@, vid) is None,
        },
{
    let n = reg.versions.len();
    let mut i: usize = 0;
    while i < n
        invariant
            0 <= i <= n,
            n == reg.versions@.len(),
            forall|i2: int, j: int|
                0 <= i2 < j < reg.versions@.len() ==> (#[trigger] reg.versions@[i2]).id != (
                #[trigger] reg.versions@[j]).id,
            forall|j: int| 0 <= j < i ==> (#[trigger] reg.versions@[j]).id != vid,
        decreases n - i,
    {
        if reg.versions[i].id == vid {
            proof {
                let k = choose|k: int|
                    0 <= k < reg.versions@.len() && (#[trigger] reg.versions@[k]).id == vid;
                assert(k == i);
            }
            return Some(i);
        }
        i += 1;
    }
    None
}

/// Roll every pending tally into its version's, its crate's and the global
/// download totals, and record it as counted. Timestamps are untouched: a
/// rollup never counts as an update of the version or the crate.
#[verifier::rlimit(100)]
pub fn collect(reg: &mut Registry)
    requires
        rollup_pre(*old(reg)),
    ensures
        ({
            let fr = *final(reg);
            let rows0 = old(reg).version_downloads@;
            let versions0 = old(reg).versions@;
            let crates0 = old(reg).crates@;
            &&& fr.version_downloads@.len() == rows0.len()
            &&& forall|k: int|
                0 <= k < rows0.len() ==> #[trigger] fr.version_downloads@[k] == (VersionDownload {
                    counted: (rows0[k].counted + spec_amt(rows0[k])) as i32,
                    ..rows0[k]
                })
            &&& fr.versions@.len() == versions0.len()
            &&& forall|k: int|
                0 <= k < versions0.len() ==> #[trigger] fr.versions@[k] == (Version {
                    downloads: (versions0[k].downloads + spec_sum_for_version(
                        rows0,
                        versions0[k].id,
                    )) as i32,
                    ..versions0[k]
                })
            &&& fr.crates@.len() == crates0.len()
            &&& forall|k: int|
                0 <= k < crates0.len() ==> #[trigger] fr.crates@[k] == (CrateRow {
                    downloads: (crates0[k].downloads + spec_sum_for_crate(
                        rows0,
                        versions0,
                        crates0[k].id,
                    )) as i32,
                    ..crates0[k]
                })
            &&& fr.total_downloads == old(reg).total_downloads + spec_sum_all(rows0)
        }),
        final(reg).limiter == old(reg).limiter,
        final(reg).buckets == old(reg).buckets,
        final(reg).max_upload_size == old(reg).max_upload_size,
        final(reg).max_unpack_size == old(reg).max_unpack_size,
        final(reg).next_crate_id == old(reg).next_crate_id,
        final(reg).version_authors == old(reg).version_authors,
        final(reg).owners == old(reg).owners,
        final(reg).known_categories == old(reg).known_categories,
        final(reg).jobs == old(reg).jobs,
        final(reg).store == old(reg).store,
        final(reg).uploader == old(reg).uploader,
{
    let n = reg.version_downloads.len();
    let mut i: usize = 0;
    while i < n
        invariant
            0 <= i <= n,
            rollup_pre(*old(reg)),
            n == old(reg).version_downloads@.len(),
            reg.version_downloads@.len() == n,
            forall|k: int|
                i <= k < n ==> #[trigger] reg.version_downloads@[k] == old(
                    reg,
                ).version_downloads@[k],
            forall|k: int|
                0 <= k < i ==> #[trigger] reg.version_downloads@[k] == (VersionDownload {
                    counted: (old(reg).version_downloads@[k].counted + spec_amt(
                        old(reg).version_downloads@[k],
                    )) as i32,
                    ..old(reg).version_downloads@[k]
                }),
            reg.versions@.len() == old(reg).versions@.len(),
            forall|k: int|
                0 <= k < old(reg).versions@.len() ==> #[trigger] reg.versions@[k] == (Version {
                    downloads: (old(reg).versions@[k].downloads + spec_sum_for_version(
                        old(reg).version_downloads@.take(i as int),
                        old(reg).versions@[k].id,
                    )) as i32,
                    ..old(reg).versions@[k]
                }),
            reg.crates@.len() == old(reg).crates@.len(),
            forall|k: int|
                0 <= k < old(reg).crates@.len() ==> #[trigger] reg.crates@[k] == (CrateRow {
                    downloads: (old(reg).crates@[k].downloads + spec_sum_for_crate(
                        old(reg).version_downloads@.take(i as int),
                        old(reg).versions@,
                        old(reg).crates@[k].id,
                    )) as i32,
                    ..old(reg).crates@[k]
                }),
            reg.total_downloads == old(reg).total_downloads + spec_sum_all(
                old(reg).version_downloads@.take(i as int),
            ),
            reg.limiter == old(reg).limiter,
            reg.buckets == old(reg).buckets,
            reg.max_upload_size == old(reg).max_upload_size,
            reg.max_unpack_size == old(reg).max_unpack_size,
            reg.next_crate_id == old(reg).next_crate_id,
            reg.version_authors == old(reg).version_authors,
            reg.owners == old(reg).owners,
            reg.known_categories == old(reg).known_categories,
            reg.jobs == old(reg).jobs,
            reg.store == old(reg).store,
            reg.uploader == old(reg).uploader,
        decreases n - i,
    {
        let ghost rows0 = old(reg).version_downloads@;
        let ghost versions0 = old(reg).versions@;
        proof {
            lemma_sum_step(rows0, versions0, i as int);
            lemma_sums_monotone(rows0, versions0, i as int);
            lemma_sums_monotone(rows0, versions0, i as int + 1);
        }
        let d = reg.version_downloads[i];
        if !d.processed && d.downloads != d.counted {
            let amt: i32 = d.downloads - d.counted;
            proof {
                assert(forall|i2: int, j: int|
                    0 <= i2 < j < reg.versions@.len() ==> (#[trigger] reg.versions@[i2]).id != (
                    #[trigger] reg.versions@[j]).id);
            }
            let vi = match find_version_index(reg, d.version_id) {
                Some(vi) => vi,
                None => {
                    proof {
                        let k = choose|k: int|
                            0 <= k < versions0.len() && (#[trigger] versions0[k]).id
                                == d.version_id;
                        assert(reg.versions@[k].id == d.version_id);
                        assert(false);
                    }
                    return ;
                },
            };
            let mut vrow = reg.versions.remove(vi);
            let cid = vrow.crate_id;
            proof {
                let k = choose|k: int|
                    0 <= k < versions0.len() && (#[trigger] versions0[k]).id == d.version_id;
                assert(k == vi);
                assert(spec_version_crate(versions0, d.version_id) == Some(cid));
            }
            proof {
                let vid = versions0[vi as int].id;
                assert(d == rows0[i as int]);
                assert(spec_amt(rows0[i as int]) == amt);
                assert(0 <= spec_sum_for_version(rows0.take(i as int), vid));
                assert(vrow.downloads as int == versions0[vi as int].downloads
                    + spec_sum_for_version(rows0.take(i as int), vid));
                assert(spec_sum_for_version(rows0.take(i as int + 1), vid)
                    <= spec_sum_for_version(rows0, vid));
                assert(vrow.downloads + amt == versions0[vi as int].downloads
                    + spec_sum_for_version(rows0.take(i as int + 1), vid));
            }
            vrow.downloads = vrow.downloads + amt;
            reg.versions.insert(vi, vrow);
            let ci = match find_crate_index(reg, cid) {
                Some(ci) => ci,
                None => {
                    proof {
                        let k = choose|k: int|
                            0 <= k < old(reg).crates@.len() && (#[trigger] old(
                                reg,
                            ).crates@[k]).id == cid;
                        assert(reg.crates@[k].id == cid);
                        assert(false);
                    }
                    return ;
                },
            };
            let mut crow = reg.crates.remove(ci);
            proof {
                let crates0 = old(reg).crates@;
                assert(crates0[ci as int].id == cid);
                assert(0 <= spec_sum_for_crate(rows0.take(i as int), versions0, cid));
                assert(crow.downloads as int == crates0[ci as int].downloads
                    + spec_sum_for_crate(rows0.take(i as int), versions0, cid));
                assert(spec_sum_for_crate(rows0.take(i as int + 1), versions0, cid)
                    <= spec_sum_for_crate(rows0, versions0, cid));
                assert(crow.downloads + amt == crates0[ci as int].downloads + spec_sum_for_crate(
                    rows0.take(i as int + 1),
                    versions0,
                    cid,
                ));
            }
            crow.downloads = crow.downloads + amt;
            reg.crates.insert(ci, crow);
            reg.total_downloads = reg.total_downloads + (amt as i64);
            reg.version_downloads.set(
                i,
                VersionDownload {
                    version_id: d.version_id,
                    downloads: d.downloads,
                    counted: d.counted + amt,
                    date: d.date,
                    processed: d.processed,
                },
            );
        } else {
            proof {
                assert(spec_amt(d) == 0);
                assert(reg.version_downloads@[i as int] == (VersionDownload {
                    counted: (rows0[i as int].counted + spec_amt(rows0[i as int])) as i32,
                    ..rows0[i as int]
                }));
            }
        }
        i += 1;
    }
    proof {
        assert(old(reg).version_downloads@.take(n as int) =~= old(reg).version_downloads@);
    }
}

/// The periodic rollup: propagate every pending tally, then freeze the
/// finished days — rows older than `today` whose tally is fully counted are
/// marked processed and never rolled up again.
pub fn update(reg: &mut Registry, today: i64)
    requires
        rollup_pre(*old(reg)),
    ensures
        ({
            let fr = *final(reg);
            let rows0 = old(reg).version_downloads@;
            let versions0 = old(reg).versions@;
            let crates0 = old(reg).crates@;
            &&& fr.version_downloads@.len() == rows0.len()
            &&& forall|k: int|
                0 <= k < rows0.len() ==> #[trigger] fr.version_downloads@[k] == (VersionDownload {
                    counted: (rows0[k].counted + spec_amt(rows0[k])) as i32,
                    processed: rows0[k].processed || rows0[k].date < today,
                    ..rows0[k]
                })
            &&& fr.versions@.len() == versions0.len()
            &&& forall|k: int|
                0 <= k < versions0.len() ==> #[trigger] fr.versions@[k] == (Version {
                    downloads: (versions0[k].downloads + spec_sum_for_version(
                        rows0,
                        versions0[k].id,
                    )) as i32,
                    ..versions0[k]
                })
            &&& fr.crates@.len() == crates0.len()
            &&& forall|k: int|
                0 <= k < crates0.len() ==> #[trigger] fr.crates@[k] == (CrateRow {
                    downloads: (crates0[k].downloads + spec_sum_for_crate(
                        rows0,
                        versions0,
                        crates0[k].id,
                    )) as i32,
                    ..crates0[k]
                })
            &&& fr.total_downloads == old(reg).total_downloads + spec_sum_all(rows0)
        }),
        final(reg).limiter == old(reg).limiter,
        final(reg).buckets == old(reg).buckets,
        final(reg).max_upload_size == old(reg).max_upload_size,
        final(reg).max_unpack_size == old(reg).max_unpack_size,
        final(reg).next_crate_id == old(reg).next_crate_id,
        final(reg).version_authors == old(reg).version_authors,
        final(reg).owners == old(reg).owners,
        final(reg).known_categories == old(reg).known_categories,
        final(reg).jobs == old(reg).jobs,
        final(reg).store == old(reg).store,
        final(reg).uploader == old(reg).uploader,
{
    collect(reg);
    let ghost rows0 = old(reg).version_downloads@;
    let ghost mid = *reg;
    let ghost mid_rows = reg.version_downloads@;
    let n = reg.version_downloads.len();
    let mut i: usize = 0;
    while i < n
        invariant
            0 <= i <= n,
            n == reg.version_downloads@.len() == mid_rows.len() == rows0.len(),
            rows_consistent(rows0),
            forall|k: int|
                0 <= k < rows0.len() ==> #[trigger] mid_rows[k] == (VersionDownload {
                    counted: (rows0[k].counted + spec_amt(rows0[k])) as i32,
                    ..rows0[k]
                }),
            forall|k: int| i <= k < n ==> #[trigger] reg.version_downloads@[k] == mid_rows[k],
            forall|k: int|
                0 <= k < i ==> #[trigger] reg.version_downloads@[k] == (VersionDownload {
                    processed: mid_rows[k].processed || mid_rows[k].date < today,
                    ..mid_rows[k]
                }),
            reg.versions == mid.versions,
            reg.crates == mid.crates,
            reg.total_downloads == mid.total_downloads,
            reg.limiter == mid.limiter,
            reg.buckets == mid.buckets,
            reg.max_upload_size == mid.max_upload_size,
            reg.max_unpack_size == mid.max_unpack_size,
            reg.next_crate_id == mid.next_crate_id,
            reg.version_authors == mid.version_authors,
            reg.owners == mid.owners,
            reg.known_categories == mid.known_categories,
            reg.jobs == mid.jobs,
            reg.store == mid.store,
            reg.uploader == mid.uploader,
        decreases n - i,
    {
        let d = reg.version_downloads[i];
        if !d.processed && d.date < today && d.downloads == d.counted {
            reg.version_downloads.set(
                i,
                VersionDownload {
                    version_id: d.version_id,
                    downloads: d.downloads,
                    counted: d.counted,
                    date: d.date,
                    processed: true,
                },
            );
        } else {
            proof {
                assert(mid_rows[i as int].counted == (rows0[i as int].counted + spec_amt(
                    rows0[i as int],
                )) as i32);
                assert(d.processed || !(d.date < today) || d.downloads == d.counted);
            }
        }
        i += 1;
    }
}

/// Count one download of a version on a given day: bump the day's tally
/// row, or open it with a single download.
pub fn create_or_increment(reg: &mut Registry, version_id: i32, date: i64)
    requires
        forall|i: int, j: int|
            0 <= i < j < old(reg).version_downloads@.len() ==> !((#[trigger] old(
                reg,
            ).version_downloads@[i]).version_id == (#[trigger] old(
                reg,
            ).version_downloads@[j]).version_id && old(reg).version_downloads@[i].date == old(
                reg,
            ).version_downloads@[j].date),
        forall|i: int|
            0 <= i < old(reg).version_downloads@.len() ==> (#[trigger] old(
                reg,
            ).version_downloads@[i]).downloads < i32::MAX,
    ensures
        ({
            let rows0 = old(reg).version_downloads@;
            if exists|k: int|
                0 <= k < rows0.len() && (#[trigger] rows0[k]).version_id == version_id
                    && rows0[k].date == date {
                let k = choose|k: int|
                    0 <= k < rows0.len() && (#[trigger] rows0[k]).version_id == version_id
                        && rows0[k].date == date;
                final(reg).version_downloads@ == rows0.update(
                    k,
                    VersionDownload { downloads: (rows0[k].downloads + 1) as i32, ..rows0[k] },
                )
            } else {
                final(reg).version_downloads@ == rows0.push(
                    VersionDownload {
                        version_id,
                        downloads: 1,
                        counted: 0,
                        date,
                        processed: false,
                    },
                )
            }
        }),
        final(reg).limiter == old(reg).limiter,
        final(reg).buckets == old(reg).buckets,
        final(reg).max_upload_size == old(reg).max_upload_size,
        final(reg).max_unpack_size == old(reg).max_unpack_size,
        final(reg).next_crate_id == old(reg).next_crate_id,
        final(reg).crates == old(reg).crates,
        final(reg).versions == old(reg).versions,
        final(reg).version_authors == old(reg).version_authors,
        final(reg).owners == old(reg).owners,
        final(reg).known_categories == old(reg).known_categories,
        final(reg).jobs == old(reg).jobs,
        final(reg).store == old(reg).store,
        final(reg).uploader == old(reg).uploader,
        final(reg).total_downloads == old(reg).total_downloads,
{
    let n = reg.version_downloads.len();
    let mut i: usize = 0;
    while i < n
        invariant
            0 <= i <= n,
            n == reg.version_downloads@.len(),
            reg == old(reg),
            forall|i2: int, j: int|
                0 <= i2 < j < reg.version_downloads@.len() ==> !((
                #[trigger] reg.version_downloads@[i2]).version_id == (
                #[trigger] reg.version_downloads@[j]).version_id
                    && reg.version_downloads@[i2].date == reg.version_downloads@[j].date),
            forall|k: int|
                0 <= k < reg.version_downloads@.len() ==> (
                #[trigger] reg.version_downloads@[k]).downloads < i32::MAX,
            forall|j: int|
                0 <= j < i ==> !((#[trigger] reg.version_downloads@[j]).version_id == version_id
                    && reg.version_downloads@[j].date == date),
        decreases n - i,
    {
        let d = reg.version_downloads[i];
        if d.version_id == version_id && d.date == date {
            proof {
                let k = choose|k: int|
                    0 <= k < reg.version_downloads@.len() && (
                    #[trigger] reg.version_downloads@[k]).version_id == version_id
                        && reg.version_downloads@[k].date == date;
                assert(k == i);
            }
            reg.version_downloads.set(
                i,
                VersionDownload {
                    version_id: d.version_id,
                    downloads: d.downloads + 1,
                    counted: d.counted,
                    date: d.date,
                    processed: d.processed,
                },
            );
            return ;
        }
        i += 1;
    }
    reg.version_downloads.push(
        VersionDownload { version_id, downloads: 1, counted: 0, date, processed: false },
    );
}

/// The id of the version row of a package with the given number.
pub open spec fn spec_version_id_of(reg: Registry, cid: i32, num: Seq<char>) -> i32 {
    reg.versions@[choose|k: int|
        0 <= k < reg.versions@.len() && (#[trigger] reg.versions@[k]).crate_id == cid
            && reg.versions@[k].num@ == num].id
}

/// Serve one download request: resolve the version, count the download for
/// `today`, and return the location the artifact is served from.
pub fn download(reg: &mut Registry, crate_name: &str, version: &str, today: i64) -> (r: Result<
    String,
    DownloadError,
>)
    requires
        old(reg).wf(),
        forall|i: int, j: int|
            0 <= i < j < old(reg).version_downloads@.len() ==> !((#[trigger] old(
                reg,
            ).version_downloads@[i]).version_id == (#[trigger] old(
                reg,
            ).version_downloads@[j]).version_id && old(reg).version_downloads@[i].date == old(
                reg,
            ).version_downloads@[j].date),
        forall|i: int|
            0 <= i < old(reg).version_downloads@.len() ==> (#[trigger] old(
                reg,
            ).version_downloads@[i]).downloads < i32::MAX,
    ensures
        ({
            let existing = old(reg).spec_crate_by_name(crate_name@);
            &&& (r is Ok <==> (existing matches Some(row) && old(reg).spec_version_exists(
                row.id,
                version@,
            )))
            &&& (r matches Ok(url) ==> {
                let host = old(reg).uploader.spec_host();
                &&& (old(reg).uploader is S3 ==> url@ == "https://"@ + host + "/"@
                    + spec_crate_path(crate_name@, version@))
                &&& (old(reg).uploader is Local ==> url@ == "/"@ + spec_crate_path(
                    crate_name@,
                    version@,
                ))
            })
            &&& (r is Ok ==> {
                let cid = existing.unwrap().id;
                let vid = spec_version_id_of(*old(reg), cid, version@);
                let rows0 = old(reg).version_downloads@;
                if exists|k: int|
                    0 <= k < rows0.len() && (#[trigger] rows0[k]).version_id == vid && rows0[k].date
                        == today {
                    let k = choose|k: int|
                        0 <= k < rows0.len() && (#[trigger] rows0[k]).version_id == vid
                            && rows0[k].date == today;
                    final(reg).version_downloads@ == rows0.update(
                        k,
                        VersionDownload { downloads: (rows0[k].downloads + 1) as i32, ..rows0[k] },
                    )
                } else {
                    final(reg).version_downloads@ == rows0.push(
                        VersionDownload {
                            version_id: vid,
                            downloads: 1,
                            counted: 0,
                            date: today,
                            processed: false,
                        },
                    )
                }
            })
            &&& (r is Err ==> *final(reg) == *old(reg))
        }),
        final(reg).crates == old(reg).crates,
        final(reg).versions == old(reg).versions,
        final(reg).buckets == old(reg).buckets,
        final(reg).jobs == old(reg).jobs,
        final(reg).store == old(reg).store,
        final(reg).uploader == old(reg).uploader,
        final(reg).total_downloads == old(reg).total_downloads,
{
    let (cid, _) = match reg.find_crate(crate_name) {
        Some(p) => p,
        None => {
            return Err(DownloadError::VersionNotFound);
        },
    };
    let vid = match find_version_by_num(reg, cid, version) {
        Some(vid) => vid,
        None => {
            return Err(DownloadError::VersionNotFound);
        },
    };
    create_or_increment(reg, vid, today);
    Ok(reg.uploader.crate_location(crate_name, version))
}

/// The id of the version row with the given package and number.
fn find_version_by_num(reg: &Registry, cid: i32, num: &str) -> (r: Option<i32>)
    requires
        reg.wf(),
    ensures
        r is Some <==> reg.spec_version_exists(cid, num@),
        r matches Some(vid) ==> vid == spec_version_id_of(*reg, cid, num@),
{
    let n = reg.versions.len();
    let mut i: usize = 0;
    while i < n
        invariant
            0 <= i <= n,
            n == reg.versions@.len(),
            reg.wf(),
            forall|j: int|
                0 <= j < i ==> !((#[trigger] reg.versions@[j]).crate_id == cid
                    && reg.versions@[j].num@ == num@),
        decreases n - i,
    {
        if reg.versions[i].crate_id == cid && str_equal(reg.versions[i].num.as_str(), num) {
            proof {
                let k = choose|k: int|
                    0 <= k < reg.versions@.len() && (#[trigger] reg.versions@[k]).crate_id == cid
                        && reg.versions@[k].num@ == num@;
                assert(k == i);
            }
            return Some(reg.versions[i].id);
        }
        i += 1;
    }
    None
}

/// The index of the crate row with this id.
fn find_crate_index(reg: &Registry, cid: i32) -> (r: Option<usize>)
    ensures
        match r {
            Some(k) => k < reg.crates@.len() && reg.crates@[k as int].id == cid,
            None => !exists|j: int|
                0 <= j < reg.crates@.len() && (#[trigger] reg.crates@[j]).id == cid,
        },
{
    let n = reg.crates.len();
    let mut i: usize = 0;
    while i < n
        invariant
            0 <= i <= n,
            n == reg.crates@.len(),
            forall|j: int| 0 <= j < i ==> (#[trigger] reg.crates@[j]).id != cid,
        decreases n - i,
    {
        if reg.crates[i].id == cid {
            return Some(i);
        }
        i += 1;
    }
    None
}

} // verus!
