use nexus_rate_limit::limiter::{
    retry_after_header_seconds, RateLimitCheck, RateLimitExceeded, RateLimitKey, RateLimitResult,
    RateLimiter,
};
use std::time::Duration;

fn key(name: &str) -> RateLimitKey {
    RateLimitKey::new(name.to_string())
}

fn check(key: &RateLimitKey, limit: usize, window: Duration) -> RateLimitCheck {
    RateLimitCheck::new(key.clone(), limit, window.as_nanos())
}

fn assert_not_limited(rate_limit_result: RateLimitResult) {
    assert!(rate_limit_result.is_ok());
}

fn assert_limited(
    rate_limit_result: RateLimitResult,
    expected_keys: &[RateLimitKey],
    expected_retry_after: Option<Duration>,
) -> RateLimitExceeded {
    let exceeded_info = match rate_limit_result {
        Ok(()) => panic!("expected request to be limited"),
        Err(exceeded) => exceeded,
    };

    let mut actual: Vec<String> =
        exceeded_info.exceeded.iter().map(|e| e.key.0.clone()).collect();
    let mut expected: Vec<String> =
        expected_keys.iter().map(|k| k.0.clone()).collect();
    actual.sort();
    expected.sort();
    assert_eq!(actual, expected);

    if let Some(expected_retry_after) = expected_retry_after {
        assert_eq!(exceeded_info.retry_after, expected_retry_after.as_nanos());
    }
    exceeded_info
}

#[test]
fn rate_limiter_independent_keys_do_not_affect_each_other() {
    let mut limiter = RateLimiter::new();

    let key_a = key("endpoint_a");
    let key_b = key("endpoint_b");

    let check_key_a = check(&key_a, 2, Duration::from_secs(3600));
    let check_key_b = check(&key_b, 2, Duration::from_secs(3600));

    assert_not_limited(limiter.check_and_increment(&[check_key_a.clone()]));
    assert_not_limited(limiter.check_and_increment(&[check_key_a.clone()]));
    assert_limited(
        limiter.check_and_increment(&[check_key_a.clone()]),
        &[key_a.clone()],
        None,
    );

    assert_not_limited(limiter.check_and_increment(&[check_key_b.clone()]));
    assert_not_limited(limiter.check_and_increment(&[check_key_b.clone()]));
    assert_limited(
        limiter.check_and_increment(&[check_key_b.clone()]),
        &[key_b.clone()],
        None,
    );
}

#[test]
fn rate_limiter_multi_key_check_is_all_or_nothing() {
    let mut limiter = RateLimiter::new();

    let shared = key("shared");
    let key_a = key("key_a");
    let key_b = key("key_b");

    let check_shared = check(&shared, 2, Duration::from_secs(3600));
    let check_key_a = check(&key_a, 2, Duration::from_secs(3600));
    let check_key_b = check(&key_b, 2, Duration::from_secs(3600));

    // these two calls succeed, but they bring the shared key's counter to
    // the limit
    assert_not_limited(
        limiter.check_and_increment(&[check_key_a.clone(), check_shared.clone()]),
    );
    assert_not_limited(
        limiter.check_and_increment(&[check_key_a.clone(), check_shared.clone()]),
    );

    // this call fails since it also uses the shared key, and counts neither
    assert_limited(
        limiter.check_and_increment(&[check_key_b.clone(), check_shared.clone()]),
        &[shared.clone()],
        None,
    );

    // key_b was not counted, so two calls still pass and the third fails
    assert_not_limited(limiter.check_and_increment(&[check_key_b.clone()]));
    assert_not_limited(limiter.check_and_increment(&[check_key_b.clone()]));
    assert_limited(
        limiter.check_and_increment(&[check_key_b.clone()]),
        &[key_b.clone()],
        None,
    );
}

#[test]
fn rate_limiter_counter_not_created_on_failed_multi_key_check() {
    let mut limiter = RateLimiter::new();

    let limited = key("limited");
    let missing = key("missing");

    let check_limited = check(&limited, 2, Duration::from_secs(3600));
    let check_missing = check(&missing, 2, Duration::from_secs(3600));

    assert_not_limited(limiter.check_and_increment(&[check_limited.clone()]));
    assert_not_limited(limiter.check_and_increment(&[check_limited.clone()]));

    assert_eq!(limiter.count_for_key(&limited), Some(2));
    assert_eq!(limiter.count_for_key(&missing), None);

    assert_limited(
        limiter.check_and_increment(&[check_missing.clone(), check_limited.clone()]),
        &[limited.clone()],
        None,
    );

    assert_eq!(limiter.count_for_key(&limited), Some(2));
    assert_eq!(limiter.count_for_key(&missing), None);
}

#[test]
fn rate_limiter_reset_removes_keys() {
    let mut limiter = RateLimiter::new();

    let key_a = key("key_a");
    let key_b = key("key_b");

    let check_key_a = check(&key_a, 2, Duration::from_secs(3600));
    let check_key_b = check(&key_b, 2, Duration::from_secs(3600));

    assert_eq!(limiter.count_for_key(&key_a), None);
    assert_eq!(limiter.count_for_key(&key_b), None);

    assert_not_limited(limiter.check_and_increment(&[check_key_a.clone()]));
    assert_not_limited(limiter.check_and_increment(&[check_key_b.clone()]));

    assert_eq!(limiter.count_for_key(&key_a), Some(1));
    assert_eq!(limiter.count_for_key(&key_b), Some(1));

    limiter.reset();

    assert_eq!(limiter.count_for_key(&key_a), None);
    assert_eq!(limiter.count_for_key(&key_b), None);

    assert_not_limited(limiter.check_and_increment(&[check_key_a.clone()]));
    assert_not_limited(limiter.check_and_increment(&[check_key_b.clone()]));

    assert_eq!(limiter.count_for_key(&key_a), Some(1));
    assert_eq!(limiter.count_for_key(&key_b), Some(1));

    limiter.reset_key(&key_a);

    assert_eq!(limiter.count_for_key(&key_a), None);
    assert_eq!(limiter.count_for_key(&key_b), Some(1));

    limiter.reset_key(&key_b);

    assert_eq!(limiter.count_for_key(&key_a), None);
    assert_eq!(limiter.count_for_key(&key_b), None);
}

#[test]
fn rate_limiter_resets_counter_after_window_expires() {
    let mut limiter = RateLimiter::new();
    let key = key("some-key");
    let window = Duration::from_secs(60);
    let check = RateLimitCheck::new(key.clone(), 1, window.as_nanos());
    let now = limiter.now();

    assert_not_limited(limiter.check_and_increment_at(&[check.clone()], now));

    assert_limited(
        limiter.check_and_increment_at(&[check.clone()], now),
        &[key.clone()],
        None,
    );

    assert_limited(
        limiter.check_and_increment_at(
            &[check.clone()],
            now + window.as_nanos() - Duration::from_nanos(1).as_nanos(),
        ),
        &[key.clone()],
        None,
    );

    assert_not_limited(
        limiter.check_and_increment_at(&[check.clone()], now + window.as_nanos()),
    );
}

#[test]
fn rate_limiter_returns_rate_limit_exceeded_with_max_retry_after() {
    let mut limiter = RateLimiter::new();
    let key_a = key("key_a");
    let key_b = key("key_b");
    let key_c = key("key_c");
    let now = limiter.now();

    let check_key_a = check(&key_a, 2, Duration::from_secs(60));
    let check_key_b = check(&key_b, 5, Duration::from_secs(100));
    let check_key_c = check(&key_c, 2, Duration::from_secs(120));

    let checks = [check_key_a, check_key_b, check_key_c];

    assert_not_limited(limiter.check_and_increment_at(&checks, now));
    assert_not_limited(
        limiter.check_and_increment_at(&checks, now + Duration::from_secs(1).as_nanos()),
    );

    assert_limited(
        limiter.check_and_increment_at(&checks, now + Duration::from_secs(2).as_nanos()),
        &[key_a.clone(), key_c.clone()],
        Some(Duration::from_secs(118)),
    );
}

// Each refused key reports the rest of its own window; the request reports
// the longest of them.
#[test]
fn rate_limiter_reports_each_keys_remaining_window() {
    let mut limiter = RateLimiter::new();
    let key_a = key("key_a");
    let key_c = key("key_c");
    let checks = [
        check(&key_a, 1, Duration::from_secs(60)),
        check(&key_c, 1, Duration::from_secs(120)),
    ];
    assert_not_limited(limiter.check_and_increment_at(&checks, 1_000));
    let exceeded = assert_limited(
        limiter.check_and_increment_at(&checks, 1_000 + Duration::from_secs(10).as_nanos()),
        &[key_a.clone(), key_c.clone()],
        Some(Duration::from_secs(110)),
    );
    assert_eq!(exceeded.exceeded[0].key, key_a);
    assert_eq!(exceeded.exceeded[0].limit, 1);
    assert_eq!(exceeded.exceeded[0].retry_after, Duration::from_secs(50).as_nanos());
    assert_eq!(exceeded.exceeded[1].retry_after, Duration::from_secs(110).as_nanos());
    assert_eq!(retry_after_header_seconds(&exceeded), 110);
}

// A window that started later than the given time has elapsed nothing: it
// stays open.
#[test]
fn rate_limiter_earlier_time_counts_as_no_elapsed_time() {
    let mut limiter = RateLimiter::new();
    let k = key("k");
    let c = check(&k, 1, Duration::from_secs(1));
    assert_not_limited(limiter.check_and_increment_at(&[c.clone()], 5_000_000_000));
    let exceeded = assert_limited(
        limiter.check_and_increment_at(&[c.clone()], 1_000),
        &[k.clone()],
        Some(Duration::from_secs(1)),
    );
    assert_eq!(exceeded.exceeded.len(), 1);
}

// Within one request, repeated checks of a key each count an event.
#[test]
fn rate_limiter_counts_repeated_keys_once_per_check() {
    let mut limiter = RateLimiter::new();
    let k = key("k");
    let c = check(&k, 5, Duration::from_secs(60));
    assert_not_limited(limiter.check_and_increment_at(&[c.clone(), c.clone(), c.clone()], 0));
    assert_eq!(limiter.count_for_key(&k), Some(3));
}

// An expired window starts over at the new time with a count of one.
#[test]
fn rate_limiter_expired_window_restarts_count() {
    let mut limiter = RateLimiter::new();
    let k = key("k");
    let c = check(&k, 3, Duration::from_secs(1));
    assert_not_limited(limiter.check_and_increment_at(&[c.clone()], 0));
    assert_not_limited(limiter.check_and_increment_at(&[c.clone()], 1));
    assert_eq!(limiter.count_for_key(&k), Some(2));
    assert_not_limited(
        limiter.check_and_increment_at(&[c.clone()], Duration::from_secs(1).as_nanos()),
    );
    assert_eq!(limiter.count_for_key(&k), Some(1));
}

#[test]
fn rate_limiter_counts_fit_at_reports_overflow_only_for_full_counters() {
    let mut limiter = RateLimiter::new();
    let k = key("k");
    let c = check(&k, usize::MAX, Duration::from_secs(60));
    assert!(limiter.counts_fit_at(&[c.clone(), c.clone()], 0));
    assert_not_limited(limiter.check_and_increment_at(&[c.clone()], 0));
    assert!(limiter.counts_fit_at(&[c.clone()], 0));
}

#[test]
fn retry_after_header_is_whole_seconds_and_at_least_one() {
    let short = RateLimitExceeded { exceeded: Vec::new(), retry_after: 1 };
    assert_eq!(retry_after_header_seconds(&short), 1);
    let long = RateLimitExceeded {
        exceeded: Vec::new(),
        retry_after: Duration::from_millis(118_900).as_nanos(),
    };
    assert_eq!(retry_after_header_seconds(&long), 118);
}

#[test]
fn rate_limit_check_accessors() {
    let k = key("k");
    let c = RateLimitCheck::new(k.clone(), 7, 9);
    assert_eq!(c.key(), &k);
    assert_eq!(c.limit, 7);
    assert_eq!(c.window, 9);
}

// A refused request passes again exactly when its reported wait is over.
#[test]
fn rate_limiter_refused_request_passes_after_its_wait() {
    let mut limiter = RateLimiter::new();
    let key_a = key("key_a");
    let key_b = key("key_b");
    let checks = [
        check(&key_a, 1, Duration::from_secs(30)),
        check(&key_b, 2, Duration::from_secs(90)),
    ];
    assert_not_limited(limiter.check_and_increment_at(&checks, 0));
    assert_not_limited(limiter.check_and_increment_at(&checks[1..], 0));
    let t = Duration::from_secs(20).as_nanos();
    let exceeded = assert_limited(
        limiter.check_and_increment_at(&checks, t),
        &[key_a.clone(), key_b.clone()],
        Some(Duration::from_secs(70)),
    );
    assert_limited(
        limiter.check_and_increment_at(&checks, t + exceeded.retry_after - 1),
        &[key_b.clone()],
        None,
    );
    assert_not_limited(limiter.check_and_increment_at(&checks, t + exceeded.retry_after));
}

// With one limit per key, a counter never exceeds it, and at most `limit`
// requests pass in each window.
#[test]
fn rate_limiter_at_most_limit_passes_per_window() {
    let mut limiter = RateLimiter::new();
    let k = key("k");
    let window = Duration::from_secs(10).as_nanos();
    let c = [RateLimitCheck::new(k.clone(), 3, window)];
    let mut passes_per_window = std::collections::BTreeMap::new();
    let mut window_start: Option<u128> = None;
    for step in 0..100u128 {
        let now = step * Duration::from_millis(700).as_nanos();
        if limiter.check_and_increment_at(&c, now).is_ok() {
            let start = match window_start {
                Some(s) if now < s + window => s,
                _ => now,
            };
            window_start = Some(start);
            *passes_per_window.entry(start).or_insert(0) += 1;
        }
        let count = limiter.count_for_key(&k).unwrap();
        assert!((1..=3).contains(&count));
    }
    assert!(passes_per_window.len() > 1);
    assert!(passes_per_window.values().all(|&n| n == 3));
}
