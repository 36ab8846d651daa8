use url_translator::services::rate_limiter::{RateLimiter, RetryAction, RetryConfig, RetryState};

#[test]
fn requests_inside_the_limit_do_not_wait() {
    let mut r = RateLimiter::new(2, 1000);
    assert_eq!(r.acquire(0), None);
    assert_eq!(r.acquire(100), None);
    assert_eq!(r.last_requests, vec![0, 100]);
}

#[test]
fn a_full_window_waits_for_the_oldest_request_at_most_half_a_second() {
    let mut r = RateLimiter::new(2, 1000);
    r.acquire(0);
    r.acquire(100);
    assert_eq!(r.acquire(200), Some(500));
    let mut r = RateLimiter::new(2, 1000);
    r.acquire(0);
    r.acquire(100);
    assert_eq!(r.acquire(800), Some(200));
}

#[test]
fn old_requests_leave_the_window() {
    let mut r = RateLimiter::new(1, 1000);
    r.acquire(0);
    assert_eq!(r.acquire(1000), None);
    assert_eq!(r.last_requests, vec![1000]);
}

#[test]
fn retries_grow_the_delay_and_stop_at_the_last_attempt() {
    let c = RetryConfig::default();
    let s = c.start();
    assert_eq!(s, RetryState { attempt: 1, delay_ms: 200 });
    let (a, s) = c.after_failure(s);
    assert_eq!(a, RetryAction::RetryAfter(200));
    assert_eq!(s, RetryState { attempt: 2, delay_ms: 300 });
    let (a, _) = c.after_failure(s);
    assert_eq!(a, RetryAction::GiveUp);
}

#[test]
fn delay_is_capped() {
    let c = RetryConfig { max_attempts: 10, base_delay_ms: 1500, max_delay_ms: 2000, backoff_numerator: 3, backoff_denominator: 2 };
    let (_, s) = c.after_failure(c.start());
    assert_eq!(s.delay_ms, 2000);
}
