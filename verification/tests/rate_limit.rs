use torn_client::rate_limit::AcquireOutcome;
use torn_client::{ApiKeyBalancing, KeyPool, RateLimitMode, RateLimiter};

#[test]
fn test_rate_limiter_allows_requests_under_limit() {
    let mut limiter = RateLimiter::new(RateLimitMode::ThrowOnLimit);
    let key = "test-key";

    // Should be available initially
    assert!(limiter.is_key_available(key, 0));

    // Record 50 requests - should still be under limit
    for _ in 0..50 {
        limiter.record_request(key, 0);
    }

    assert!(limiter.is_key_available(key, 0));
}

#[test]
fn test_rate_limiter_blocks_at_limit() {
    let mut limiter = RateLimiter::new(RateLimitMode::ThrowOnLimit);
    let key = "test-key";

    // Fill up to the limit
    for _ in 0..100 {
        limiter.record_request(key, 0);
    }

    // Should now be unavailable
    assert!(!limiter.is_key_available(key, 0));
}

#[test]
fn test_timestamp_pruning() {
    let mut limiter = RateLimiter::new(RateLimitMode::ThrowOnLimit);
    let key = "test-key";

    // Fill the window at one instant
    for _ in 0..100 {
        limiter.record_request(key, 0);
    }
    assert!(!limiter.is_key_available(key, 0));

    // 70 seconds later every timestamp has aged out of the window
    assert!(limiter.is_key_available(key, 70_000));
}

#[test]
fn test_get_rate_limit_info() {
    let mut limiter = RateLimiter::new(RateLimitMode::AutoDelay);
    let key = "abcdef123456";

    // Record some requests
    for _ in 0..25 {
        limiter.record_request(key, 1000);
    }

    let info = limiter.get_rate_limit_info(1000);
    assert_eq!(info.len(), 1);

    let (masked, key_info) = &info[0];
    assert_eq!(masked, "abcde...");
    assert_eq!(key_info.used, 25);
    assert_eq!(key_info.remaining, 75);
    assert!(key_info.reset_in_ms > 0);
}

#[test]
fn test_ignore_mode_always_available() {
    let mut limiter = RateLimiter::new(RateLimitMode::Ignore);
    let key = "test-key";

    // Record way over the limit
    for _ in 0..200 {
        limiter.record_request(key, 0);
    }

    // Should still be available in Ignore mode
    assert!(limiter.is_key_available(key, 0));
}

#[test]
fn test_throw_on_limit_returns_error() {
    let mut limiter = RateLimiter::new(RateLimitMode::ThrowOnLimit);
    let mut pool = KeyPool::new(vec!["key1".to_string()], ApiKeyBalancing::RoundRobin).unwrap();

    // Fill up the limit
    for _ in 0..100 {
        limiter.record_request("key1", 0);
    }

    // Should deny the acquisition outright, never asking to wait
    let result = limiter.acquire(&mut pool, 0);
    assert!(matches!(result, AcquireOutcome::Denied));
}

#[test]
fn test_ignore_mode_always_returns_key() {
    let mut limiter = RateLimiter::new(RateLimitMode::Ignore);
    let mut pool = KeyPool::new(vec!["key1".to_string()], ApiKeyBalancing::RoundRobin).unwrap();

    // Fill way over the limit
    for _ in 0..200 {
        limiter.record_request("key1", 0);
    }

    // Should still return a key
    let result = limiter.acquire(&mut pool, 0);
    match result {
        AcquireOutcome::Granted(k) => assert_eq!(k, "key1"),
        _ => panic!("expected a granted key"),
    }
}

#[test]
fn test_find_available_key_cycles_through_pool() {
    let mut limiter = RateLimiter::new(RateLimitMode::ThrowOnLimit);
    let mut pool = KeyPool::new(
        vec!["key1".to_string(), "key2".to_string(), "key3".to_string()],
        ApiKeyBalancing::RoundRobin,
    )
    .unwrap();

    // Fill up key1
    for _ in 0..100 {
        limiter.record_request("key1", 0);
    }

    // Should find key2 or key3
    let available = limiter.find_available_key(&mut pool, 0);
    assert!(available.is_some());
    let key = available.unwrap();
    assert!(key == "key2" || key == "key3");
}

#[test]
fn test_auto_delay_waits_correctly() {
    let mut limiter = RateLimiter::new(RateLimitMode::AutoDelay);
    let mut pool = KeyPool::new(vec!["key1".to_string()], ApiKeyBalancing::RoundRobin).unwrap();

    // Fill up to the limit at one instant
    let start: u64 = 1000;
    for _ in 0..100 {
        limiter.record_request("key1", start);
    }

    // The limiter asks for the full window plus the safety buffer
    let wait = match limiter.acquire(&mut pool, start) {
        AcquireOutcome::Wait(d) => d,
        _ => panic!("expected a wait"),
    };
    assert_eq!(wait, 60_100);

    // Waiting any shorter still leaves the key exhausted
    assert!(matches!(
        limiter.acquire(&mut pool, start + 59_999),
        AcquireOutcome::Wait(_)
    ));

    // After the advised wait the key is granted again
    let result = limiter.acquire(&mut pool, start + wait);
    assert!(matches!(result, AcquireOutcome::Granted(_)));
}

#[test]
fn test_per_ip_limit() {
    let mut limiter = RateLimiter::new(RateLimitMode::ThrowOnLimit);
    let mut pool = KeyPool::new(
        vec!["key1".to_string(), "key2".to_string(), "key3".to_string()],
        ApiKeyBalancing::RoundRobin,
    )
    .unwrap();

    // Record requests across multiple keys up to per-IP limit
    for i in 0..1000 {
        let key = pool.get_key(i % 3).unwrap().to_string();
        limiter.record_request(&key, 0);
    }

    // Should now hit per-IP limit
    let available = limiter.find_available_key(&mut pool, 0);
    assert!(available.is_none());
}

#[test]
fn test_is_ip_available_threshold() {
    let mut limiter = RateLimiter::new(RateLimitMode::ThrowOnLimit);
    for i in 0..999 {
        let key = format!("key{}", i % 25);
        limiter.record_request(&key, 0);
    }
    assert!(limiter.is_ip_available(0));
    limiter.record_request("key0", 0);
    assert!(!limiter.is_ip_available(0));
    // The aggregate window also slides
    assert!(limiter.is_ip_available(61_000));
}

#[test]
fn test_min_wait_time_fallback() {
    // No tracked windows at all: the conservative fallback applies
    let limiter = RateLimiter::new(RateLimitMode::AutoDelay);
    assert_eq!(limiter.min_wait_time(0), 61_000);
}

#[test]
fn test_min_wait_time_zero_with_capacity() {
    let mut limiter = RateLimiter::new(RateLimitMode::AutoDelay);
    limiter.record_request("key1", 0);
    assert_eq!(limiter.min_wait_time(0), 0);
}

#[test]
fn test_min_wait_time_aggregate_full_never_zero() {
    // The aggregate window is full while one key still has per-key
    // budget: the key cannot help, so the advised wait covers the
    // aggregate window instead of busy-looping at zero.
    let mut limiter = RateLimiter::new(RateLimitMode::AutoDelay);
    for _ in 0..999 {
        limiter.record_request("key1", 0);
    }
    limiter.record_request("key2", 0);
    assert_eq!(limiter.min_wait_time(0), 60_100);

    let mut pool = KeyPool::new(
        vec!["key1".to_string(), "key2".to_string()],
        ApiKeyBalancing::RoundRobin,
    )
    .unwrap();
    match limiter.acquire(&mut pool, 0) {
        AcquireOutcome::Wait(d) => assert_eq!(d, 60_100),
        _ => panic!("expected a wait while the aggregate window is full"),
    }

    // Once the aggregate window has slid past, keys are granted again.
    assert!(matches!(
        limiter.acquire(&mut pool, 60_100),
        AcquireOutcome::Granted(_)
    ));
}

#[test]
fn test_prune_timestamps_keeps_only_window() {
    let mut times: Vec<u64> = vec![0, 10_000, 50_000, 59_999, 60_000];
    RateLimiter::prune_timestamps(&mut times, 60_000);
    // Entries 60 seconds old or older are discarded
    assert_eq!(times, vec![10_000, 50_000, 59_999, 60_000]);
}
