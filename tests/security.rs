use launchpad::security::{RateLimiter, SecurityError};

#[test]
fn test_rate_limiting() {
    let mut limiter = RateLimiter::new(2, 1); // 2 requests per second

    // First two requests should succeed
    assert!(limiter.check_rate_limit("user1").is_ok());
    assert!(limiter.check_rate_limit("user1").is_ok());

    // Third request should fail
    assert!(limiter.check_rate_limit("user1").is_err());

    // Different user should still work
    assert!(limiter.check_rate_limit("user2").is_ok());
}

#[test]
fn rate_limit_window_slides() {
    let mut limiter = RateLimiter::new(2, 1);
    assert_eq!(limiter.window_millis, 1000);
    assert!(limiter.check_rate_limit_at("a", 0).is_ok());
    assert!(limiter.check_rate_limit_at("a", 1).is_ok());
    assert!(matches!(limiter.check_rate_limit_at("a", 2), Err(SecurityError::RateLimitExceeded)));
    assert_eq!(limiter.current_requests_at("a", 2), 2);
    // at 1000 the request made at 0 has left the window
    assert_eq!(limiter.current_requests_at("a", 1000), 1);
    assert!(limiter.check_rate_limit_at("a", 1000).is_ok());
    assert!(limiter.check_rate_limit_at("a", 1000).is_err());
    assert_eq!(limiter.current_requests_at("nobody", 5), 0);
}

#[test]
fn rate_limit_cleanup_drops_stale_callers() {
    let mut limiter = RateLimiter::new(5, 1);
    assert!(limiter.check_rate_limit_at("old", 0).is_ok());
    assert!(limiter.check_rate_limit_at("new", 1500).is_ok());
    limiter.cleanup_old_entries_at(1600);
    assert_eq!(limiter.requests.len(), 1);
    assert_eq!(limiter.requests[0].identifier, "new");
    assert_eq!(limiter.current_requests_at("new", 1600), 1);
    assert_eq!(limiter.current_requests_at("old", 1600), 0);
}

#[test]
fn rate_limit_cleanup_with_clock_keeps_fresh_requests() {
    let mut limiter = RateLimiter::new(3, 60);
    assert!(limiter.check_rate_limit("x").is_ok());
    limiter.cleanup_old_entries();
    assert_eq!(limiter.get_current_requests("x"), 1);
}

#[test]
fn rate_limit_huge_window_saturates() {
    let limiter = RateLimiter::new(1, u64::MAX);
    assert_eq!(limiter.window_millis, u64::MAX);
}
