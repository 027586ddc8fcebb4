use rustyclaw::rate_limit::{IpKey, IpRateLimiter};

#[test]
fn test_rate_limiter_allows_then_limits() {
    // capacity 2 tokens, 0.5 tokens per second
    let mut limiter = IpRateLimiter::new(2_000_000, 500_000);
    let ip = IpKey::V4(0x7f00_0001);
    let now = 1_000;

    assert!(limiter.consume(ip, now, 1_000_000).is_none());
    assert!(limiter.consume(ip, now, 1_000_000).is_none());
    assert!(limiter.consume(ip, now, 1_000_000).is_some());
}

#[test]
fn rate_limiter_retry_after_and_refill() {
    let mut limiter = IpRateLimiter::new(2_000_000, 500_000);
    let ip = IpKey::V4(0x0a00_0001);
    assert_eq!(limiter.consume(ip, 0, 1_000_000), None);
    assert_eq!(limiter.consume(ip, 0, 1_000_000), None);
    // one token missing at half a token per second: two seconds
    assert_eq!(limiter.consume(ip, 0, 1_000_000), Some(2));
    // after one second only half a token came back
    assert_eq!(limiter.consume(ip, 1_000_000, 1_000_000), Some(1));
    // after two seconds a whole token is back
    assert_eq!(limiter.consume(ip, 2_000_000, 1_000_000), None);
    // a long pause refills up to capacity only
    assert_eq!(limiter.consume(ip, 100_000_000, 1_000_000), None);
    assert_eq!(limiter.consume(ip, 100_000_000, 1_000_000), None);
    assert_eq!(limiter.consume(ip, 100_000_000, 1_000_000), Some(2));
}

#[test]
fn rate_limiter_clients_are_separate() {
    let mut limiter = IpRateLimiter::new(1_000_000, 100_000);
    let a = IpKey::V4(1);
    let b = IpKey::V4(2);
    let c = IpKey::V6(1);
    assert_eq!(limiter.consume(a, 5, 1), None);
    assert_eq!(limiter.consume(a, 5, 1), Some(10));
    assert_eq!(limiter.consume(b, 5, 1), None);
    assert_eq!(limiter.consume(c, 5, 1), None);
}

#[test]
fn rate_limiter_minimums() {
    // capacity and rate below the minimum are raised to 1 token and 0.1/s
    let mut limiter = IpRateLimiter::new(0, 0);
    let ip = IpKey::V6(42);
    assert_eq!(limiter.consume(ip, 0, 0), None);
    // a cost under one token is charged as one token; 1 token at 0.1/s: 10 s
    assert_eq!(limiter.consume(ip, 0, 10), Some(10));
    // a cost above capacity is never allowed
    let mut limiter = IpRateLimiter::new(1_000_000, 1_000_000);
    assert_eq!(limiter.consume(ip, 0, 3_000_000), Some(2));
}
