//! Per-actor admission control: a token bucket per (user, action), refilled at
//! a fixed rate, consulted before a publish is accepted.
//!
//! Time is measured in integer microseconds. The bucket rows and the per-user
//! burst overrides live in a [`BucketStore`]; refill, clamping and the
//! decrement for the current request happen in one update, so the stored
//! token count never goes through an intermediate state.

use vstd::prelude::*;

verus! {

/// The actions that are rate limited independently of each other.
#[derive(PartialEq, Eq, Structural, Clone, Copy, Debug)]
pub enum LimitedAction {
    PublishNew,
}

/// One token-bucket row: the tokens still available to a user and the instant
/// (microseconds) up to which refills have been accounted for.
#[derive(PartialEq, Eq, Structural, Clone, Copy, Debug)]
pub struct Bucket {
    pub user_id: i32,
    pub tokens: i32,
    pub last_refill: i64,
    pub action: LimitedAction,
}

/// A per-user burst override, optionally expiring at a given instant.
#[derive(PartialEq, Eq, Structural, Clone, Copy, Debug)]
pub struct RateOverride {
    pub user_id: i32,
    pub burst: i32,
    pub expires_at: Option<i64>,
}

/// The persisted rate-limiting state: one bucket per user plus the overrides.
pub struct BucketStore {
    pub buckets: Vec<Bucket>,
    pub overrides: Vec<RateOverride>,
}

/// Returned when a check finds no token left; `retry_after` is the instant at
/// which the next token accrues.
#[derive(PartialEq, Eq, Structural, Clone, Copy, Debug)]
pub struct TooManyRequests {
    pub retry_after: i64,
}

/// The rate limiter configuration: one token accrues every `rate`
/// microseconds, and a bucket holds at most `burst` tokens at rest.
#[derive(PartialEq, Eq, Structural, Clone, Copy, Debug)]
pub struct RateLimiter {
    pub rate: i64,
    pub burst: i32,
}

impl Bucket {
    pub open spec fn wf(self) -> bool {
        0 <= self.tokens && 0 <= self.last_refill
    }
}

impl BucketStore {
    /// Bucket rows are keyed by user: no two rows share a user id.
    pub open spec fn wf(self) -> bool {
        &&& forall|i: int, j: int|
            0 <= i < j < self.buckets@.len() ==> (#[trigger] self.buckets@[i]).user_id != (
            #[trigger] self.buckets@[j]).user_id
        &&& forall|i: int| 0 <= i < self.buckets@.len() ==> (#[trigger] self.buckets@[i]).wf()
        &&& forall|i: int|
            0 <= i < self.overrides@.len() ==> 0 <= (#[trigger] self.overrides@[i]).burst
        &&& forall|i: int, j: int|
            0 <= i < j < self.overrides@.len() ==> (#[trigger] self.overrides@[i]).user_id != (
            #[trigger] self.overrides@[j]).user_id
    }

    /// The index of the user's bucket row, if one exists.
    pub open spec fn bucket_index_of(self, user_id: i32) -> Option<int> {
        if exists|i: int| 0 <= i < self.buckets@.len() && (#[trigger] self.buckets@[i]).user_id
            == user_id {
            Some(
                choose|i: int|
                    0 <= i < self.buckets@.len() && (#[trigger] self.buckets@[i]).user_id
                        == user_id,
            )
        } else {
            None
        }
    }

    pub open spec fn bucket_of(self, user_id: i32) -> Option<Bucket> {
        match self.bucket_index_of(user_id) {
            Some(i) => Some(self.buckets@[i]),
            None => None,
        }
    }

    /// The first override row for this user that has not expired at `now`.
    pub open spec fn live_override_of(self, user_id: i32, now: i64) -> Option<RateOverride> {
        if exists|i: int|
            0 <= i < self.overrides@.len() && override_live(#[trigger] self.overrides@[i], user_id, now) {
            Some(
                self.overrides@[choose|i: int|
                    0 <= i < self.overrides@.len() && override_live(
                        #[trigger] self.overrides@[i],
                        user_id,
                        now,
                    )],
            )
        } else {
            None
        }
    }

    pub fn new() -> (r: BucketStore)
        ensures
            r.wf(),
            r.buckets@.len() == 0,
            r.overrides@.len() == 0,
    {
        BucketStore { buckets: Vec::new(), overrides: Vec::new() }
    }
}

pub open spec fn override_live(o: RateOverride, user_id: i32, now: i64) -> bool {
    o.user_id == user_id && match o.expires_at {
        None => true,
        Some(e) => e > now,
    }
}

/// `min(burst, max(0, tokens - 1) + added)`: the token count after one check
/// that credits `added` refilled tokens and takes one for the request.
pub open spec fn next_tokens(tokens: int, burst: int, added: int) -> int {
    let taken = if tokens - 1 >= 0 {
        tokens - 1
    } else {
        0
    };
    if taken + added >= burst {
        burst
    } else {
        taken + added
    }
}

impl RateLimiter {
    pub open spec fn wf(self) -> bool {
        1 <= self.rate && 0 <= self.burst
    }

    /// The burst in force for this user at `now`: their live override if one
    /// exists, else the global default.
    pub open spec fn effective_burst(self, store: BucketStore, user_id: i32, now: i64) -> int {
        match store.live_override_of(user_id, now) {
            Some(o) => o.burst as int,
            None => self.burst as int,
        }
    }

    /// Whole refill intervals elapsed since the bucket's `last_refill`.
    pub open spec fn tokens_to_add(self, bucket: Bucket, now: i64) -> int {
        (now - bucket.last_refill) / (self.rate as int)
    }

    fn lookup_burst(&self, store: &BucketStore, user_id: i32, now: i64) -> (r: i32)
        requires
            store.wf(),
            self.wf(),
        ensures
            r as int == self.effective_burst(*store, user_id, now),
            r >= 0,
    {
        let mut i: usize = 0;
        while i < store.overrides.len()
            invariant
                0 <= i <= store.overrides@.len(),
                store.wf(),
                self.wf(),
                forall|j: int| 0 <= j < i ==> !override_live(#[trigger] store.overrides@[j], user_id, now),
            decreases store.overrides@.len() - i,
        {
            let o = store.overrides[i];
            if o.user_id == user_id {
                let live = match o.expires_at {
                    None => true,
                    Some(e) => e > now,
                };
                if live {
                    proof {
                        assert(override_live(store.overrides@[i as int], user_id, now));
                        let k = choose|k: int|
                            0 <= k < store.overrides@.len() && override_live(
                                #[trigger] store.overrides@[k],
                                user_id,
                                now,
                            );
                        assert(k == i);
                    }
                    return o.burst;
                }
            }
            i += 1;
        }
        self.burst
    }

    /// Refill the user's bucket as far as `now` allows, take one token from it
    /// (creating the bucket pre-decremented on first use), and return the row.
    ///
    /// The returned token count is the clamped
    /// `min(effective_burst, max(0, tokens - 1) + elapsed / rate)`, and
    /// `last_refill` advances by an exact multiple of `rate`.
    pub fn take_token(&self, store: &mut BucketStore, user_id: i32, now: i64) -> (r: Bucket)
        requires
            old(store).wf(),
            self.wf(),
            0 <= now,
            match old(store).bucket_of(user_id) {
                Some(b) => b.last_refill <= now,
                None => true,
            },
        ensures
            final(store).wf(),
            r.user_id == user_id,
            final(store).bucket_of(user_id) == Some(r),
            final(store).overrides@ == old(store).overrides@,
            0 <= r.tokens <= self.effective_burst(*old(store), user_id, now),
            self.effective_burst(*final(store), user_id, now) == self.effective_burst(
                *old(store),
                user_id,
                now,
            ),
            forall|u: i32|
                u != user_id ==> #[trigger] final(store).bucket_of(u) == old(store).bucket_of(u),
            match old(store).bucket_of(user_id) {
                None => {
                    &&& r.tokens as int == self.effective_burst(*old(store), user_id, now)
                    &&& r.last_refill == now
                    &&& final(store).buckets@ == old(store).buckets@.push(r)
                },
                Some(b) => {
                    &&& r.tokens as int == next_tokens(
                        b.tokens as int,
                        self.effective_burst(*old(store), user_id, now),
                        self.tokens_to_add(b, now),
                    )
                    &&& r.last_refill as int == b.last_refill + self.tokens_to_add(b, now) * (
                    self.rate as int)
                    &&& b.last_refill <= r.last_refill <= now
                },
            },
    {
        let burst = self.lookup_burst(store, user_id, now);
        let mut i: usize = 0;
        let n = store.buckets.len();
        while i < n
            invariant
                0 <= i <= n,
                n == store.buckets@.len(),
                store.buckets@ == old(store).buckets@,
                store.overrides@ == old(store).overrides@,
                store.wf(),
                self.wf(),
                0 <= now,
                burst >= 0,
                burst as int == self.effective_burst(*old(store), user_id, now),
                match store.bucket_of(user_id) {
                    Some(b) => b.last_refill <= now,
                    None => true,
                },
                forall|j: int| 0 <= j < i ==> (#[trigger] store.buckets@[j]).user_id != user_id,
            decreases n - i,
        {
            if store.buckets[i].user_id == user_id {
                let b = store.buckets[i];
                proof {
                    let k = choose|k: int|
                        0 <= k < store.buckets@.len() && (#[trigger] store.buckets@[k]).user_id
                            == user_id;
                    assert(k == i);
                }
                let elapsed: i64 = now - b.last_refill;
                let added: i64 = elapsed / self.rate;
                proof {
                    vstd::arithmetic::div_mod::lemma_fundamental_div_mod(
                        elapsed as int,
                        self.rate as int,
                    );
                    vstd::arithmetic::div_mod::lemma_mod_bound(elapsed as int, self.rate as int);
                    assert(0 <= added as int && added as int * self.rate as int <= elapsed as int)
                        by (nonlinear_arith)
                        requires
                            added as int == elapsed as int / self.rate as int,
                            1 <= self.rate as int,
                            0 <= elapsed as int,
                            elapsed as int == self.rate as int * (elapsed as int / self.rate as int)
                                + elapsed as int % self.rate as int,
                            0 <= elapsed as int % self.rate as int,
                            (elapsed as int % self.rate as int) < self.rate as int,
                    ;
                }
                let taken: i64 = if b.tokens >= 1 {
                    (b.tokens - 1) as i64
                } else {
                    0
                };
                let new_tokens: i32 = if added >= burst as i64 || taken + added >= burst as i64 {
                    burst
                } else {
                    (taken + added) as i32
                };
                let new_refill: i64 = b.last_refill + added * self.rate;
                let updated = Bucket {
                    user_id,
                    tokens: new_tokens,
                    last_refill: new_refill,
                    action: LimitedAction::PublishNew,
                };
                store.buckets.set(i, updated);
                proof {
                    assert(store.buckets@[i as int] == updated);
                    assert(store.wf());
                    let k = choose|k: int|
                        0 <= k < store.buckets@.len() && (#[trigger] store.buckets@[k]).user_id
                            == user_id;
                    assert(k == i);
                    assert(store.bucket_of(user_id) == Some(updated));
                    assert forall|u: i32| u != user_id implies #[trigger] store.bucket_of(u)
                        == old(store).bucket_of(u) by {
                        assert(forall|m: int|
                            0 <= m < store.buckets@.len() && m != i ==> store.buckets@[m] == old(
                                store,
                            ).buckets@[m]);
                        if exists|m: int|
                            0 <= m < store.buckets@.len() && (#[trigger] store.buckets@[m]).user_id
                                == u {
                            let m = choose|m: int|
                                0 <= m < store.buckets@.len() && (
                                #[trigger] store.buckets@[m]).user_id == u;
                            assert(m != i);
                            assert(old(store).buckets@[m].user_id == u);
                            let m2 = choose|m2: int|
                                0 <= m2 < old(store).buckets@.len() && (#[trigger] old(
                                    store,
                                ).buckets@[m2]).user_id == u;
                            assert(m2 == m);
                        } else {
                            if exists|m2: int|
                                0 <= m2 < old(store).buckets@.len() && (#[trigger] old(
                                    store,
                                ).buckets@[m2]).user_id == u {
                                let m2 = choose|m2: int|
                                    0 <= m2 < old(store).buckets@.len() && (#[trigger] old(
                                        store,
                                    ).buckets@[m2]).user_id == u;
                                assert(m2 != i);
                                assert(store.buckets@[m2].user_id == u);
                            }
                        }
                    }
                }
                return updated;
            }
            i += 1;
        }
        let fresh = Bucket {
            user_id,
            tokens: burst,
            last_refill: now,
            action: LimitedAction::PublishNew,
        };
        store.buckets.push(fresh);
        proof {
            assert(store.buckets@[store.buckets@.len() - 1] == fresh);
            let ghost last = store.buckets@.len() - 1;
            assert forall|u: i32| u != user_id implies #[trigger] store.bucket_of(u) == old(
                store,
            ).bucket_of(u) by {
                if exists|k: int| 0 <= k < store.buckets@.len() && (
                #[trigger] store.buckets@[k]).user_id == u {
                    let k = choose|k: int|
                        0 <= k < store.buckets@.len() && (#[trigger] store.buckets@[k]).user_id
                            == u;
                    assert(k != last);
                    assert(old(store).buckets@[k].user_id == u);
                    let k2 = choose|k2: int|
                        0 <= k2 < old(store).buckets@.len() && (#[trigger] old(
                            store,
                        ).buckets@[k2]).user_id == u;
                    assert(k2 == k);
                } else {
                    if exists|k2: int|
                        0 <= k2 < old(store).buckets@.len() && (#[trigger] old(
                            store,
                        ).buckets@[k2]).user_id == u {
                        let k2 = choose|k2: int|
                            0 <= k2 < old(store).buckets@.len() && (#[trigger] old(
                                store,
                            ).buckets@[k2]).user_id == u;
                        assert(store.buckets@[k2].user_id == u);
                    }
                }
            }
        }
        fresh
    }

    /// Admit or reject one request from this user at `now`: take a token; if
    /// none was left, deny and report when the next token accrues.
    pub fn check_rate_limit(&self, store: &mut BucketStore, user_id: i32, now: i64) -> (r: Result<
        (),
        TooManyRequests,
    >)
        requires
            old(store).wf(),
            self.wf(),
            0 <= now,
            now + self.rate <= i64::MAX,
            match old(store).bucket_of(user_id) {
                Some(b) => b.last_refill <= now,
                None => true,
            },
        ensures
            final(store).wf(),
            final(store).overrides@ == old(store).overrides@,
            forall|u: i32|
                u != user_id ==> #[trigger] final(store).bucket_of(u) == old(store).bucket_of(u),
            ({
                let taken = self.take_token_spec(*old(store), user_id, now);
                &&& final(store).bucket_of(user_id) == Some(taken)
                &&& (r matches Ok(()) <==> taken.tokens >= 1)
                &&& (r matches Err(e) ==> e.retry_after == taken.last_refill + self.rate)
            }),
    {
        let bucket = self.take_token(store, user_id, now);
        proof {
            assert(bucket == self.take_token_spec(*old(store), user_id, now));
        }
        if bucket.tokens >= 1 {
            Ok(())
        } else {
            Err(TooManyRequests { retry_after: bucket.last_refill + self.rate })
        }
    }

    /// The bucket row that `take_token` leaves behind and returns.
    pub open spec fn take_token_spec(self, store: BucketStore, user_id: i32, now: i64) -> Bucket {
        let burst = self.effective_burst(store, user_id, now);
        match store.bucket_of(user_id) {
            None => Bucket {
                user_id,
                tokens: burst as i32,
                last_refill: now,
                action: LimitedAction::PublishNew,
            },
            Some(b) => Bucket {
                user_id,
                tokens: next_tokens(b.tokens as int, burst, self.tokens_to_add(b, now)) as i32,
                last_refill: (b.last_refill + self.tokens_to_add(b, now) * (self.rate as int)) as i64,
                action: LimitedAction::PublishNew,
            },
        }
    }
}

/// The token count after `k` further checks in the same instant (no refill),
/// starting from `t0` tokens under burst `burst`.
pub open spec fn tokens_after_checks(t0: int, burst: int, k: nat) -> int
    decreases k,
{
    if k == 0 {
        t0
    } else {
        next_tokens(tokens_after_checks(t0, burst, (k - 1) as nat), burst, 0)
    }
}

/// Draining a bucket: starting full (after the creating check, `burst`
/// tokens), `k` further immediate checks leave `max(burst - k, 0)` tokens.
/// So checks `2..=burst` still find a token, and check `burst + 1` does not.
pub proof fn lemma_bucket_drain(burst: int, k: nat)
    requires
        0 <= burst,
    ensures
        tokens_after_checks(burst, burst, k) == if burst - k >= 0 {
            burst - k
        } else {
            0
        },
    decreases k,
{
    if k > 0 {
        lemma_bucket_drain(burst, (k - 1) as nat);
    }
}

/// A check in the very instant of the last refill credits nothing: that is
/// what makes consecutive immediate checks drain the bucket one token at a
/// time, as `tokens_after_checks` iterates.
pub proof fn lemma_immediate_check_adds_nothing(limiter: RateLimiter, b: Bucket, now: i64)
    requires
        limiter.wf(),
        b.last_refill == now,
    ensures
        limiter.tokens_to_add(b, now) == 0,
{
}

/// An override that lowers the burst below the stored token count clamps
/// the count down to the new burst on the next check — never up, whatever
/// refill has accrued.
pub proof fn lemma_override_clamps_down(tokens: int, burst: int, added: int)
    requires
        0 <= burst,
        tokens - 1 >= burst,
        0 <= added,
    ensures
        next_tokens(tokens, burst, added) == burst,
{
}

/// One refill interval after an empty bucket's `last_refill`, exactly one
/// check succeeds: it finds one token, and a second check in the same instant
/// finds none.
pub proof fn lemma_refill_allows_exactly_one(limiter: RateLimiter, burst: int)
    requires
        limiter.wf(),
        1 <= burst,
    ensures
        next_tokens(0, burst, 1) == 1,
        next_tokens(next_tokens(0, burst, 1), burst, 0) == 0,
{
}

/// An empty bucket allows exactly one check anywhere in the refill interval
/// after one has elapsed: a check at any instant in
/// `[last_refill + rate, last_refill + 2*rate)` credits exactly one token
/// and takes it, leaving a bucket whose `last_refill` advanced by one
/// interval; a second check in the same instant credits nothing and finds
/// no token. The fields here are exactly those `take_token`'s contract
/// computes.
pub proof fn lemma_window_allows_exactly_one(limiter: RateLimiter, b: Bucket, now: i64, burst: int)
    requires
        limiter.wf(),
        b.wf(),
        1 <= burst,
        b.tokens == 0,
        b.last_refill + limiter.rate <= now,
        now < b.last_refill + 2 * limiter.rate,
    ensures
        limiter.tokens_to_add(b, now) == 1,
        next_tokens(b.tokens as int, burst, 1) == 1,
        ({
            let refilled = Bucket {
                tokens: 1,
                last_refill: (b.last_refill + limiter.rate) as i64,
                ..b
            };
            limiter.tokens_to_add(refilled, now) == 0 && next_tokens(1, burst, 0) == 0
        }),
{
    let r = limiter.rate as int;
    let e = now - b.last_refill;
    vstd::arithmetic::div_mod::lemma_fundamental_div_mod(e, r);
    vstd::arithmetic::div_mod::lemma_mod_bound(e, r);
    assert(e / r == 1) by (nonlinear_arith)
        requires
            1 <= r,
            r <= e,
            e < 2 * r,
            e == r * (e / r) + e % r,
            0 <= e % r,
            (e % r) < r,
    ;
    let e2 = now - (b.last_refill + r);
    vstd::arithmetic::div_mod::lemma_fundamental_div_mod(e2, r);
    vstd::arithmetic::div_mod::lemma_mod_bound(e2, r);
    assert(e2 / r == 0) by (nonlinear_arith)
        requires
            1 <= r,
            0 <= e2,
            e2 < r,
            e2 == r * (e2 / r) + e2 % r,
            0 <= e2 % r,
            (e2 % r) < r,
    ;
}

} // verus!
