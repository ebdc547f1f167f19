use gatekeeper::security::rate_limit::RateLimiter;

const SEC: u128 = 1_000_000_000;

#[test]
fn allows_within_capacity() {
    let mut limiter = RateLimiter::new(5, 1);
    for _ in 0..5 {
        assert!(limiter.check("ip1"));
    }
}

#[test]
fn blocks_when_exhausted() {
    let mut limiter = RateLimiter::new(2, 1);
    assert!(limiter.check("ip1"));
    assert!(limiter.check("ip1"));
    assert!(!limiter.check("ip1"));
}

#[test]
fn separate_buckets_per_key() {
    let mut limiter = RateLimiter::new(1, 1);
    assert!(limiter.check("ip1"));
    assert!(limiter.check("ip2"));
    assert!(!limiter.check("ip1"));
}

#[test]
fn bucket_count_grows() {
    let mut limiter = RateLimiter::new(10, 1);
    for i in 0..100 {
        limiter.check(&format!("ip_{}", i));
    }
    assert_eq!(limiter.bucket_count(), 100);
}

#[test]
fn saturating_refill_does_not_overflow() {
    let mut limiter = RateLimiter::new(10, u32::MAX);
    for _ in 0..10 {
        limiter.check_at("ip1", 0);
    }
    assert_eq!(limiter.tokens("ip1"), Some(0));
    // 50 seconds later: 50 * u32::MAX tokens saturate and are capped at the capacity.
    assert!(limiter.check_at("ip1", 50 * SEC));
    assert!(limiter.tokens("ip1").unwrap() <= 10);
    assert_eq!(limiter.tokens("ip1"), Some(9));
}

#[test]
fn refills_one_token_per_second() {
    let mut limiter = RateLimiter::new(2, 1);
    assert!(limiter.check_at("a", 0));
    assert!(limiter.check_at("a", 0));
    assert!(!limiter.check_at("a", SEC / 2));
    assert!(limiter.check_at("a", SEC + SEC / 2));
    assert!(!limiter.check_at("a", SEC + SEC / 2));
}

#[test]
fn idle_buckets_are_evicted_after_interval() {
    let mut limiter = RateLimiter::new(4, 2);
    limiter.check_at("old", 0);
    limiter.check_at("fresh", 59 * SEC);
    assert_eq!(limiter.bucket_count(), 2);
    // Eviction runs once 60 s have passed since the last one; the threshold is
    // max(4 / 2, 1) * 2 = 4 s.
    limiter.check_at("new", 61 * SEC);
    assert_eq!(limiter.bucket_count(), 2);
    assert_eq!(limiter.tokens("old"), None);
    assert!(limiter.tokens("fresh").is_some());
}

#[test]
fn zero_refill_never_refills() {
    let mut limiter = RateLimiter::new(1, 0);
    assert!(limiter.check_at("k", 0));
    assert!(!limiter.check_at("k", 30 * SEC));
}

#[test]
fn clock_checks_stay_within_capacity() {
    let mut limiter = RateLimiter::new(3, 100);
    for _ in 0..10 {
        limiter.check("k");
        assert!(limiter.tokens("k").unwrap() <= 3);
    }
    assert!(limiter.check_at("other", 0));
    assert_eq!(limiter.tokens("other"), Some(2));
}
