use ratecache::rate_limiter::{
    RateLimiter, DEFAULT_MAX_TOKENS, DEFAULT_REFILL_RATE, TOKEN_UNIT,
};

#[test]
fn full_bucket_admits_burst_of_one_hundred() {
    // With the default configuration (100 tokens, 0.83 tokens per second),
    // one hundred immediate requests drain the bucket, the next check says
    // no, and after two seconds at least 1.6 tokens are back.
    let mut l = RateLimiter::new(DEFAULT_MAX_TOKENS, DEFAULT_REFILL_RATE, 0);
    for _ in 0..100 {
        assert!(l.can_make_request(0));
        l.record_request();
    }
    assert_eq!(l.get_remaining_tokens(0), 0);
    assert!(!l.can_make_request(0));
    let after = l.get_remaining_tokens(2_000);
    assert!(after >= 16 * TOKEN_UNIT / 10);
    assert_eq!(after, 1_660_000);
    assert_eq!(l.requests_count(), 100);
}

#[test]
fn refill_is_linear_and_clamped() {
    // 2-token bucket refilled at one token per second.
    let mut l = RateLimiter::new(2 * TOKEN_UNIT, 1_000, 0);
    l.record_request();
    l.record_request();
    assert_eq!(l.get_remaining_tokens(0), 0);
    assert_eq!(l.get_remaining_tokens(500), 500_000);
    assert_eq!(l.get_remaining_tokens(1_500), 1_500_000);
    // A long idle stretch clamps at capacity, never above it.
    assert_eq!(l.get_remaining_tokens(1_000_000), 2 * TOKEN_UNIT);
}

#[test]
fn record_without_a_whole_token_is_a_noop() {
    // A bucket holding one and a half tokens and refilling nothing.
    let mut l = RateLimiter::new(TOKEN_UNIT + TOKEN_UNIT / 2, 0, 0);
    l.record_request();
    assert_eq!(l.requests_count(), 1);
    assert_eq!(l.get_remaining_tokens(0), TOKEN_UNIT / 2);
    // Below one whole token: no grant, nothing changes.
    l.record_request();
    assert_eq!(l.requests_count(), 1);
    assert_eq!(l.get_remaining_tokens(0), TOKEN_UNIT / 2);
}

#[test]
fn admission_answer_matches_what_record_does() {
    let mut l = RateLimiter::new(TOKEN_UNIT, DEFAULT_REFILL_RATE, 0);
    // Exactly one token: admissible, and recording consumes it.
    assert!(l.can_make_request(0));
    l.record_request();
    assert_eq!(l.requests_count(), 1);
    // Empty bucket, no time passed: not admissible, recording is a no-op.
    assert!(!l.can_make_request(0));
    l.record_request();
    assert_eq!(l.requests_count(), 1);
    // 1205 ms at 830 micro-units per ms crosses one whole token again.
    assert!(l.can_make_request(1_205));
    l.record_request();
    assert_eq!(l.requests_count(), 2);
}

#[test]
fn try_acquire_consumes_exactly_when_it_admits() {
    let mut l = RateLimiter::new(TOKEN_UNIT, 0, 0);
    assert!(l.try_acquire(0));
    assert_eq!(l.requests_count(), 1);
    assert_eq!(l.get_remaining_tokens(0), 0);
    assert!(!l.try_acquire(0));
    assert_eq!(l.requests_count(), 1);
}

#[test]
fn clock_reading_behind_last_refill_adds_nothing() {
    let mut l = RateLimiter::new(DEFAULT_MAX_TOKENS, DEFAULT_REFILL_RATE, 1_000);
    l.record_request();
    let t = l.get_remaining_tokens(500);
    assert_eq!(t, DEFAULT_MAX_TOKENS - TOKEN_UNIT);
}
