use desk::funding::{
    apply_in_memory, compute_payment, compute_settlement, read_setting, try_apply_in_memory,
    try_compute_settlement, FundingConfig, FundingConfigError, FundingScheduler, PremiumTracker,
};
use desk::risk::engine::RiskEngine;
use desk::risk::types::PositionSide::{Long, Short};

const SCALE: i64 = 1_000_000;

#[test]
fn premium_twap_and_clamp() {
    let cfg = FundingConfig { period_secs: 28_800, interest_e9: 100_000, clamp_e9: 7_500_000 };
    let mut t = PremiumTracker::default();
    // mark 1% above index: premium = 1e7 e9 each sample.
    t.sample(5_050_000, 5_000_000);
    t.sample(5_050_000, 5_000_000);
    assert_eq!(t.twap_e9(), 10_000_000);
    // 1% + 0.01% interest would exceed the 0.75% clamp.
    assert_eq!(t.close_period(&cfg), 7_500_000);
    // Reset: next period starts clean, interest only.
    assert_eq!(t.samples(), 0);
    assert_eq!(t.close_period(&cfg), 100_000);

    // Negative premium clamps symmetrically.
    let mut t = PremiumTracker::default();
    t.sample(4_900_000, 5_000_000); // -2%
    assert_eq!(t.close_period(&cfg), -7_500_000);

    // Garbage inputs are skipped, not booked.
    let mut t = PremiumTracker::default();
    t.sample(0, 5_000_000);
    t.sample(5_000_000, 0);
    t.sample(5_000_000, -1);
    assert_eq!(t.samples(), 0);
}

#[test]
fn payment_math_known_values() {
    // 0.1 BTC at $50k = 5_000 USDT value = 5e11 atoms.
    // rate 0.01% (100_000 e9): payment = 5e11 x 1e5 / 1e9 = 50_000_000
    // atoms = 0.5 USDT.
    assert_eq!(compute_payment(100_000, 5_000_000, SCALE, 100_000), 50_000_000);
    // Negative rate mirrors.
    assert_eq!(compute_payment(100_000, 5_000_000, SCALE, -100_000), -50_000_000);
}

#[test]
fn settlement_is_exactly_zero_sum_with_residue() {
    // Long OI == short OI but partitioned unevenly, with quantities chosen so
    // per-position truncation differs.
    let positions = vec![
        (1, Long, 33_333),
        (2, Long, 66_667), // longs: 100_000 total
        (3, Short, 99_999),
        (4, Short, 1), // shorts: 100_000 total
    ];
    let s = compute_settlement(&positions, 5_000_001, SCALE, 100_000);
    let sum: i64 = s.deltas.iter().map(|d| d.equity_delta_atoms).sum();
    assert_eq!(sum + s.residue_atoms, 0, "conservation is exact by construction");
    assert!(s.long_paid_atoms > 0 && s.short_received_atoms > 0);
    // The dust position pays/receives 0 and is omitted.
    assert!(s.deltas.iter().all(|d| d.equity_delta_atoms != 0));
}

#[test]
fn scheduler_resumes_from_persisted_anchor_and_catches_up() {
    let cfg = FundingConfig { period_secs: 28_800, interest_e9: 0, clamp_e9: 1 };
    let period = 28_800_000i64;
    // Fresh symbol: first boundary one period out, nothing due now.
    let mut s = FundingScheduler::new(None, 1_000_000, &cfg);
    assert_eq!(s.due(1_000_000), None);
    assert_eq!(s.due(1_000_000 + period), Some(1_000_000 + period));

    // Restart with a persisted FUTURE anchor: must NOT settle early
    // (the last settlement already advanced the state).
    let mut s = FundingScheduler::new(Some(2_000_000_000), 1_999_999_999, &cfg);
    assert_eq!(s.due(1_999_999_999), None, "no double settlement after restart");

    // Restart after long downtime: catch up one period per call,
    // every boundary accounted for.
    let mut s = FundingScheduler::new(Some(1_000_000), 1_000_000 + 3 * period + 5, &cfg);
    let now = 1_000_000 + 3 * period + 5;
    assert_eq!(s.due(now), Some(1_000_000));
    assert_eq!(s.due(now), Some(1_000_000 + period));
    assert_eq!(s.due(now), Some(1_000_000 + 2 * period));
    assert_eq!(s.due(now), Some(1_000_000 + 3 * period));
    assert_eq!(s.due(now), None, "caught up");
}

#[test]
fn in_memory_apply_mirrors_settlement_and_keeps_conservation() {
    let mut engine = RiskEngine::new();
    engine.initialize_account(1, 1_000_000_000);
    engine.initialize_account(2, 1_000_000_000);
    let equity = |e: &RiskEngine, u: i64| e.account(u).unwrap().equity;
    let e0: i64 = equity(&engine, 1) + equity(&engine, 2);
    let s = compute_settlement(
        &vec![(1, Long, 33_333), (2, Short, 33_333)],
        5_000_001,
        SCALE,
        100_000,
    );
    apply_in_memory(&mut engine, &s);
    let e1: i64 = equity(&engine, 1) + equity(&engine, 2);
    assert_eq!(
        e1 + engine.insurance_fund(),
        e0,
        "in-memory mirror preserves the conservation law exactly"
    );
    // Long paid: equity strictly down; short received.
    assert!(equity(&engine, 1) < 1_000_000_000);
    assert!(equity(&engine, 2) > 1_000_000_000);
}

#[test]
fn zero_rate_settles_nothing() {
    let s = compute_settlement(
        &vec![(1, Long, 100_000), (2, Short, 100_000)],
        5_000_000,
        SCALE,
        0,
    );
    assert!(s.deltas.is_empty());
    assert_eq!(s.residue_atoms, 0);
}

#[test]
fn funding_settings_have_defaults_and_limits() {
    let cfg = FundingConfig::from_settings(None, Some("no number"), None).unwrap();
    assert_eq!((cfg.period_secs, cfg.interest_e9, cfg.clamp_e9), (28_800, 100_000, 7_500_000));
    let cfg = FundingConfig::from_settings(Some("60"), Some("5"), Some("9")).unwrap();
    assert_eq!((cfg.period_secs, cfg.interest_e9, cfg.clamp_e9), (60, 5, 9));
    assert_eq!(
        FundingConfig::from_settings(None, None, Some("-1")).err(),
        Some(FundingConfigError::NegativeClamp)
    );
    assert!(FundingConfig::from_settings(None, Some("-1000000001"), None).is_err());
    assert_eq!(read_setting(Some("-12"), 3), -12);
    assert_eq!(read_setting(None, 3), 3);
}

#[test]
fn settlement_that_does_not_fit_is_refused() {
    let positions = vec![(1, Long, i64::MAX), (2, Short, i64::MAX)];
    assert!(try_compute_settlement(&positions, i64::MAX, 1, 1_000_000_000).is_none());
    let mut engine = RiskEngine::new();
    engine.initialize_account(1, i64::MAX);
    engine.initialize_account(2, 0);
    let s = compute_settlement(&vec![(2, Long, 33_333), (1, Short, 33_333)], 5_000_001, SCALE, 100_000);
    assert!(!try_apply_in_memory(&mut engine, &s));
    assert_eq!(engine.account(1).unwrap().equity, i64::MAX);
}
