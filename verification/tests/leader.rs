use desk::leader::{release, split_epoch, stamp_epoch, try_acquire, Lease, LeaseGuard, SEQ_MASK};

#[test]
fn epoch_stamping_roundtrips_and_orders() {
    let s = stamp_epoch(3, 12345);
    assert_eq!(split_epoch(s), (3, 12345));
    // Higher epoch always compares above any sequence of a lower epoch
    // (the property zombie-fencing relies on).
    assert!(stamp_epoch(4, 0) > stamp_epoch(3, SEQ_MASK));
    // seq overflow cannot bleed into the epoch bits.
    assert_eq!(split_epoch(stamp_epoch(1, SEQ_MASK + 7)).0, 1);
}

#[test]
fn test_stamp_epoch_u16_ceiling() {
    // epoch=65535 is valid (maximum u16 value)
    let s = stamp_epoch(65535, 42);
    assert_eq!(split_epoch(s), (65535, 42));
}

#[test]
fn lease_guard_valid_before_ttl() {
    let guard = LeaseGuard::new(10_000, 5);
    assert!(guard.is_lease_valid(5), "lease must be valid immediately after creation");
}

#[test]
fn lease_guard_expires_after_ttl() {
    let guard = LeaseGuard::new(10, 0);
    assert!(!guard.is_lease_valid(20), "lease must be invalid after TTL elapsed");
}

#[test]
fn lease_guard_record_renewal_resets_timer() {
    let mut guard = LeaseGuard::new(10, 0);
    assert!(!guard.is_lease_valid(20));
    guard.record_renewal(20);
    assert!(guard.is_lease_valid(20), "lease must be valid after renewal");
}

#[test]
fn a_change_of_holder_raises_the_epoch() {
    let first = try_acquire(None, "a", 0, 100).unwrap();
    assert_eq!(first.epoch, 1);
    assert!(try_acquire(Some(&first), "b", 50, 100).is_none(), "held by another");
    let renewed = try_acquire(Some(&first), "a", 50, 100).unwrap();
    assert_eq!(renewed.epoch, 1);
    assert_eq!(renewed.expires_at_ms, 150);
    let taken = try_acquire(Some(&renewed), "b", 151, 100).unwrap();
    assert_eq!(taken.epoch, 2);
    assert_eq!(taken.holder, "b");
}

#[test]
fn only_the_holder_can_give_a_lease_up() {
    let mut lease = Lease { holder: "a".to_string(), epoch: 4, expires_at_ms: 500 };
    release(&mut lease, "b", 100);
    assert_eq!(lease.expires_at_ms, 500);
    release(&mut lease, "a", 100);
    assert!(try_acquire(Some(&lease), "b", 101, 50).is_some());
}
