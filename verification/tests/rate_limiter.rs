//! The token bucket: refill, clamping, overrides and their expiry.

use cargo_registry::rate_limiter::{
    Bucket, BucketStore, LimitedAction, RateLimiter, RateOverride,
};

const SECOND: i64 = 1_000_000;
const MILLISECOND: i64 = 1_000;
const DAY: i64 = 86_400 * SECOND;

fn now() -> i64 {
    1_553_029_884_620_401
}

fn new_user_bucket(store: &mut BucketStore, user_id: i32, tokens: i32, now: i64) -> Bucket {
    let bucket = Bucket {
        user_id,
        tokens,
        last_refill: now,
        action: LimitedAction::PublishNew,
    };
    store.buckets.push(bucket);
    bucket
}

#[test]
fn take_token_with_no_bucket_creates_new_one() {
    let mut store = BucketStore::new();
    let now = now();

    let rate = RateLimiter {
        rate: SECOND,
        burst: 10,
    };
    let user1 = 1;
    let bucket = rate.take_token(&mut store, user1, now);
    let expected = Bucket {
        user_id: bucket.user_id,
        tokens: 10,
        last_refill: now,
        action: LimitedAction::PublishNew,
    };
    assert_eq!(expected, bucket);

    let rate = RateLimiter {
        rate: 50 * MILLISECOND,
        burst: 20,
    };
    let user2 = 2;
    let bucket = rate.take_token(&mut store, user2, now);
    let expected = Bucket {
        user_id: bucket.user_id,
        tokens: 20,
        last_refill: now,
        action: LimitedAction::PublishNew,
    };
    assert_eq!(expected, bucket);
}

#[test]
fn take_token_with_existing_bucket_modifies_existing_bucket() {
    let mut store = BucketStore::new();
    let now = now();

    let rate = RateLimiter {
        rate: SECOND,
        burst: 10,
    };
    let user_id = new_user_bucket(&mut store, 1, 5, now).user_id;
    let bucket = rate.take_token(&mut store, user_id, now);
    let expected = Bucket {
        user_id,
        tokens: 4,
        last_refill: now,
        action: LimitedAction::PublishNew,
    };
    assert_eq!(expected, bucket);
}

#[test]
fn take_token_after_delay_refills() {
    let mut store = BucketStore::new();
    let now = now();

    let rate = RateLimiter {
        rate: SECOND,
        burst: 10,
    };
    let user_id = new_user_bucket(&mut store, 1, 5, now).user_id;
    let refill_time = now + 2 * SECOND;
    let bucket = rate.take_token(&mut store, user_id, refill_time);
    let expected = Bucket {
        user_id,
        tokens: 6,
        last_refill: refill_time,
        action: LimitedAction::PublishNew,
    };
    assert_eq!(expected, bucket);
}

#[test]
fn refill_subsecond_rate() {
    let mut store = BucketStore::new();
    // A sub-second rate: time is integer microseconds, so the refill count
    // and the advanced `last_refill` stay exact.
    let now = 1_553_029_884_620_401;

    let rate = RateLimiter {
        rate: 100 * MILLISECOND,
        burst: 10,
    };
    let user_id = new_user_bucket(&mut store, 1, 5, now).user_id;
    let refill_time = now + 300 * MILLISECOND;
    let bucket = rate.take_token(&mut store, user_id, refill_time);
    let expected = Bucket {
        user_id,
        tokens: 7,
        last_refill: refill_time,
        action: LimitedAction::PublishNew,
    };
    assert_eq!(expected, bucket);
}

#[test]
fn last_refill_always_advanced_by_multiple_of_rate() {
    let mut store = BucketStore::new();
    let now = now();

    let rate = RateLimiter {
        rate: 100 * MILLISECOND,
        burst: 10,
    };
    let user_id = new_user_bucket(&mut store, 1, 5, now).user_id;
    let bucket = rate.take_token(&mut store, user_id, now + 250 * MILLISECOND);
    let expected_refill_time = now + 200 * MILLISECOND;
    let expected = Bucket {
        user_id,
        tokens: 6,
        last_refill: expected_refill_time,
        action: LimitedAction::PublishNew,
    };
    assert_eq!(expected, bucket);
}

#[test]
fn zero_tokens_returned_when_user_has_no_tokens_left() {
    let mut store = BucketStore::new();
    let now = now();

    let rate = RateLimiter {
        rate: SECOND,
        burst: 10,
    };
    let user_id = new_user_bucket(&mut store, 1, 1, now).user_id;
    let bucket = rate.take_token(&mut store, user_id, now);
    let expected = Bucket {
        user_id,
        tokens: 0,
        last_refill: now,
        action: LimitedAction::PublishNew,
    };
    assert_eq!(expected, bucket);

    let bucket = rate.take_token(&mut store, user_id, now);
    assert_eq!(expected, bucket);
}

#[test]
fn a_user_with_no_tokens_gets_a_token_after_exactly_rate() {
    let mut store = BucketStore::new();
    let now = now();

    let rate = RateLimiter {
        rate: SECOND,
        burst: 10,
    };
    let user_id = new_user_bucket(&mut store, 1, 0, now).user_id;
    let refill_time = now + SECOND;
    let bucket = rate.take_token(&mut store, user_id, refill_time);
    let expected = Bucket {
        user_id,
        tokens: 1,
        last_refill: refill_time,
        action: LimitedAction::PublishNew,
    };
    assert_eq!(expected, bucket);
}

#[test]
fn tokens_never_refill_past_burst() {
    let mut store = BucketStore::new();
    let now = now();

    let rate = RateLimiter {
        rate: SECOND,
        burst: 10,
    };
    let user_id = new_user_bucket(&mut store, 1, 8, now).user_id;
    let refill_time = now + 4 * SECOND;
    let bucket = rate.take_token(&mut store, user_id, refill_time);
    let expected = Bucket {
        user_id,
        tokens: 10,
        last_refill: refill_time,
        action: LimitedAction::PublishNew,
    };
    assert_eq!(expected, bucket);
}

#[test]
fn override_is_used_instead_of_global_burst_if_present() {
    let mut store = BucketStore::new();
    let now = now();

    let rate = RateLimiter {
        rate: SECOND,
        burst: 10,
    };
    let user_id = 1;
    let other_user_id = 2;

    store.overrides.push(RateOverride {
        user_id,
        burst: 20,
        expires_at: None,
    });

    let bucket = rate.take_token(&mut store, user_id, now);
    let other_bucket = rate.take_token(&mut store, other_user_id, now);

    assert_eq!(20, bucket.tokens);
    assert_eq!(10, other_bucket.tokens);
}

#[test]
fn overrides_can_expire() {
    let mut store = BucketStore::new();
    let now = now();

    let rate = RateLimiter {
        rate: SECOND,
        burst: 10,
    };
    let user_id = 1;
    let other_user_id = 2;

    store.overrides.push(RateOverride {
        user_id,
        burst: 20,
        expires_at: Some(now + 30 * DAY),
    });

    let bucket = rate.take_token(&mut store, user_id, now);
    let other_bucket = rate.take_token(&mut store, other_user_id, now);

    assert_eq!(20, bucket.tokens);
    assert_eq!(10, other_bucket.tokens);

    // Manually expire the rate limit
    store.overrides[0].expires_at = Some(now - 30 * DAY);

    let bucket = rate.take_token(&mut store, user_id, now);
    let other_bucket = rate.take_token(&mut store, other_user_id, now);

    // The number of tokens of user_id is 10 and not 9 because when the new
    // burst limit is lower than the amount of available tokens, the number
    // of available tokens is reset to the new burst limit.
    assert_eq!(10, bucket.tokens);
    assert_eq!(9, other_bucket.tokens);
}

#[test]
fn one_check_allowed_anywhere_in_the_refill_window() {
    let mut store = BucketStore::new();
    let now = now();
    let rate = RateLimiter {
        rate: SECOND,
        burst: 10,
    };
    new_user_bucket(&mut store, 9, 0, now);
    // Mid-window, one interval has elapsed: exactly one token to take.
    let later = now + SECOND + 300 * MILLISECOND;
    assert!(rate.check_rate_limit(&mut store, 9, later).is_ok());
    assert!(rate.check_rate_limit(&mut store, 9, later).is_err());
    // The refill advanced by exactly one interval, not to the check time.
    assert_eq!(store.buckets[0].last_refill, now + SECOND);
}

#[test]
fn burst_consecutive_checks_then_denied_then_one_refill_allows() {
    let mut store = BucketStore::new();
    let now = now();
    let rate = RateLimiter {
        rate: SECOND,
        burst: 3,
    };

    // The creating check and two more find a token.
    for _ in 0..3 {
        assert!(rate.check_rate_limit(&mut store, 7, now).is_ok());
    }
    // The bucket is drained: the next check is denied.
    let denied = rate.check_rate_limit(&mut store, 7, now);
    let retry_after = denied.unwrap_err().retry_after;
    assert_eq!(retry_after, now + SECOND);

    // Exactly one refill interval later, exactly one more check passes.
    assert!(rate.check_rate_limit(&mut store, 7, now + SECOND).is_ok());
    assert!(rate.check_rate_limit(&mut store, 7, now + SECOND).is_err());
}
