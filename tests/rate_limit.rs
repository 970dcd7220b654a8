use rust_gateway::rate_limit::RateLimiter;

const MS: u64 = 1_000_000;

#[test]
fn allowed_messages_stay_within_burst_plus_refill() {
    let mut l = RateLimiter::new(2, 3, 0);
    let mut allowed = 0u64;
    let mut t = 0u64;
    while t <= 1_000 * MS {
        if l.allow(t) {
            allowed += 1;
        }
        t += 10 * MS;
    }
    assert_eq!(allowed, 5);
    assert!(allowed <= 3 + 1 * 2 + 1);
}

#[test]
fn burst_is_available_at_once_then_refills() {
    let mut l = RateLimiter::new(1, 2, 5);
    assert!(l.allow(5));
    assert!(l.allow(5));
    assert!(!l.allow(5));
    assert!(!l.allow(5 + 999 * MS));
    assert!(l.allow(5 + 1_000 * MS));
    assert!(!l.allow(5 + 1_000 * MS));
}

#[test]
fn refill_is_capped_at_burst() {
    let mut l = RateLimiter::new(10, 1, 0);
    assert!(l.allow(0));
    assert!(l.allow(3_600_000 * MS));
    assert!(!l.allow(3_600_000 * MS));
}

#[test]
fn zero_rate_is_unbounded() {
    let mut l = RateLimiter::new(0, 0, 0);
    for i in 0..100 {
        assert!(l.allow(i));
    }
}
