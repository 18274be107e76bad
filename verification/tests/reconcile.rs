use desk::reconcile::{
    check_pg_redis_accounts, CrossStoreReport, PositionReport, ReconcileReport, REPORT_ROW_LIMIT,
};

#[test]
fn fresh_reports_are_clean() {
    assert!(ReconcileReport::default().is_clean());
    assert!(CrossStoreReport::default().is_clean());
    assert!(PositionReport::default().is_clean());
    let mut report = ReconcileReport::default();
    report.orders_overfill_total = 1;
    assert!(!report.is_clean());
}

#[test]
fn the_stores_are_held_against_each_other() {
    let row = |id: i64, balance: i64, frozen: i64| (id, "USDT".to_string(), balance, frozen);
    let rows = vec![row(1, 100, 0), row(2, 100, 10), row(3, 0, 0), row(4, 5, 0)];
    let cached = vec![
        (Some(100), Some(0)),
        (Some(100), Some(20)),
        (None, None),
        (None, None),
    ];
    let report = check_pg_redis_accounts(&rows, &cached);
    assert_eq!(report.compared, 4);
    assert_eq!(report.missing_in_redis, 1);
    assert_eq!(report.mismatched_total, 1);
    assert_eq!(report.mismatched.len(), 1);
    assert_eq!(report.mismatched[0].user_id, 2);
    assert_eq!(report.mismatched[0].redis_frozen_atoms, Some(20));
    assert!(!report.is_clean());
    let agreeing = check_pg_redis_accounts(&vec![row(1, 100, 0)], &vec![(Some(100), None)]);
    assert!(agreeing.is_clean());
}

#[test]
fn mismatches_are_counted_past_the_limit_of_the_report() {
    let n = REPORT_ROW_LIMIT + 5;
    let rows: Vec<_> = (0..n as i64).map(|i| (i, "BTC".to_string(), 1, 0)).collect();
    let cached: Vec<_> = (0..n).map(|_| (Some(2), Some(0))).collect();
    let report = check_pg_redis_accounts(&rows, &cached);
    assert_eq!(report.mismatched_total, n as u64);
    assert_eq!(report.mismatched.len(), REPORT_ROW_LIMIT);
}
