use desk::rate_limit::{OpClass, RateLimitPolicy, RateLimiter, SharedRateLimiter, TokenBucket};

#[test]
fn test_token_bucket_consumption() {
    let policy = RateLimitPolicy { requests_per_second: 10, burst_capacity: 20 };

    let mut bucket = TokenBucket::new(policy, 0);
    assert_eq!(bucket.tokens as u32, 20);

    assert!(bucket.try_consume(15, 0));
    assert_eq!(bucket.tokens as u32, 5);

    assert!(!bucket.try_consume(10, 0));
}

#[test]
fn test_rate_limiter() {
    let mut limiter = RateLimiter::new(RateLimitPolicy::default_trading());

    for _ in 0..100 {
        assert!(limiter.consume("client1", 1, 0).is_ok());
    }

    let mut exceed = false;
    for _ in 0..200 {
        if limiter.consume("client1", 1, 0).is_err() {
            exceed = true;
            break;
        }
    }
    assert!(exceed, "Should hit rate limit eventually");
}

#[test]
fn test_rate_limit_with_refill() {
    let policy = RateLimitPolicy { requests_per_second: 10, burst_capacity: 10 };
    let mut limiter = RateLimiter::new(policy);

    for _ in 0..10 {
        assert!(limiter.consume("client1", 1, 0).is_ok());
    }
    assert!(limiter.consume("client1", 1, 0).is_err());

    // A second later there are tokens again.
    assert!(limiter.consume("client1", 1, 1).is_ok());
    assert!(limiter.consume("client1", 1, 1).is_ok());
}

#[test]
fn shared_limiter_splits_place_and_cancel_buckets() {
    let mut limiter = SharedRateLimiter::new(
        Some(RateLimitPolicy { requests_per_second: 10, burst_capacity: 3 }),
        Some(RateLimitPolicy { requests_per_second: 10, burst_capacity: 100 }),
    );
    // Exhaust the place bucket...
    for _ in 0..3 {
        assert!(limiter.try_consume(42, OpClass::Place, 0).is_ok());
    }
    assert!(limiter.try_consume(42, OpClass::Place, 0).is_err());
    // ...cancels must still flow (pull-quotes guarantee).
    for _ in 0..50 {
        assert!(limiter.try_consume(42, OpClass::Cancel, 0).is_ok());
    }
    // Other users unaffected.
    assert!(limiter.try_consume(43, OpClass::Place, 0).is_ok());
}

#[test]
fn shared_limiter_disabled_class_always_passes() {
    let mut limiter = SharedRateLimiter::new(None, None);
    assert!(!limiter.is_enabled());
    for _ in 0..10_000 {
        assert!(limiter.try_consume(1, OpClass::Place, 0).is_ok());
        assert!(limiter.try_consume(1, OpClass::Cancel, 0).is_ok());
    }
}

#[test]
fn shared_limiter_snapshot_restore_roundtrip_clamps() {
    let mut limiter = SharedRateLimiter::new(
        Some(RateLimitPolicy { requests_per_second: 10, burst_capacity: 10 }),
        None,
    );
    for _ in 0..4 {
        limiter.try_consume(7, OpClass::Place, 5).unwrap();
    }
    let snap = limiter.snapshot(5);
    assert!(snap
        .iter()
        .any(|&(uid, op, tokens, _)| uid == 7 && op == 0 && (tokens as f64 - 6.0).abs() < 1.0));

    // Restore into a fresh limiter: remaining budget carries over. A restart
    // must NOT mint a fresh full bucket.
    let mut restored = SharedRateLimiter::new(
        Some(RateLimitPolicy { requests_per_second: 10, burst_capacity: 10 }),
        None,
    );
    restored.restore(&snap);
    let mut ok = 0;
    while restored.try_consume(7, OpClass::Place, 5).is_ok() {
        ok += 1;
        assert!(ok < 100, "must exhaust");
    }
    assert!(ok <= 7, "restored bucket must reflect prior consumption, got {ok}");

    // Tokens beyond capacity (policy shrank between runs) are clamped.
    let mut shrunk = SharedRateLimiter::new(
        Some(RateLimitPolicy { requests_per_second: 1, burst_capacity: 2 }),
        None,
    );
    shrunk.restore(&vec![(9, 0, 999, snap[0].3)]);
    let mut ok = 0;
    while shrunk.try_consume(9, OpClass::Place, 5).is_ok() {
        ok += 1;
        assert!(ok < 100);
    }
    assert!(ok <= 3, "clamped to new capacity, got {ok}");
}

#[test]
fn test_custom_policy() {
    let mut limiter = RateLimiter::new(RateLimitPolicy::default_trading());

    limiter.set_policy("vip_client", RateLimitPolicy::lenient());

    let vip_tokens = limiter.get_tokens("vip_client", 0);
    assert_eq!(vip_tokens as f64, 2000.0);

    let normal_tokens = limiter.get_tokens("normal_client", 0);
    assert_eq!(normal_tokens as f64, 200.0);
}

#[test]
fn policies_come_from_settings() {
    assert_eq!(RateLimitPolicy::from_settings(None, Some("5")), None);
    assert_eq!(RateLimitPolicy::from_settings(Some("0"), None), None);
    let p = RateLimitPolicy::from_settings(Some("10"), None).unwrap();
    assert_eq!((p.requests_per_second, p.burst_capacity), (10, 20));
    let p = RateLimitPolicy::from_settings(Some("10"), Some("0")).unwrap();
    assert_eq!(p.burst_capacity, 1);
    assert_eq!(RateLimitPolicy::strict().burst_capacity, 20);
}

#[test]
fn checking_takes_nothing_and_reset_fills_up() {
    let mut limiter = RateLimiter::new(RateLimitPolicy { requests_per_second: 1, burst_capacity: 2 });
    assert!(limiter.check_limit("a", 0).is_ok());
    assert_eq!(limiter.get_tokens("a", 0), 2);
    limiter.consume("a", 2, 0).unwrap();
    assert!(limiter.check_limit("a", 0).is_err());
    limiter.reset("a");
    assert_eq!(limiter.get_tokens("a", 0), 2);
    limiter.consume("a", 2, 0).unwrap();
    limiter.reset_all();
    assert_eq!(limiter.get_tokens("a", 0), 2);
}

#[test]
fn never_more_is_granted_than_burst_and_rate_allow() {
    let mut bucket =
        TokenBucket::new(RateLimitPolicy { requests_per_second: 3, burst_capacity: 5 }, 0);
    let mut granted = 0;
    for second in 0..4u64 {
        for _ in 0..10 {
            if bucket.try_consume(1, second) {
                granted += 1;
            }
        }
    }
    assert_eq!(granted, 5 + 3 * 3);
}
