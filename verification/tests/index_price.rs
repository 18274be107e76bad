use desk::index_price::{
    clamped_mark, source_address, source_names, IndexAggregator, SharedSource,
};

const SYM: [u8; 16] = *b"IDX_TEST\0\0\0\0\0\0\0\0";

fn agg(prices: &[(i64, i64)], staleness: i64, outlier_bps: i64, min: usize) -> IndexAggregator {
    let sources = prices
        .iter()
        .enumerate()
        .map(|(i, &(p, ts))| {
            let mut s = SharedSource::new(format!("s{i}"));
            s.store(SYM, p, ts);
            s
        })
        .collect();
    let mut a = IndexAggregator::new(sources, None, None, None);
    a.staleness_ms = staleness;
    a.outlier_bps = outlier_bps;
    a.min_sources = min;
    a
}

#[test]
fn median_of_three_and_outlier_rejection() {
    // Honest 50_000/50_010, one compromised source at +30%.
    let mut a = agg(&[(5_000_000, 100), (5_001_000, 100), (6_500_000, 100)], 1_000, 200, 2);
    // Median = 5_001_000; 6_500_000 deviates ~30% > 2%: dropped;
    // re-median of the two survivors = 5_001_000.
    assert_eq!(a.index_at(&SYM, 100), Some(5_001_000));
    assert_eq!(a.health.outliers_dropped, 1);
}

#[test]
fn stale_sources_age_out_and_freeze() {
    let mut a = agg(&[(5_000_000, 0), (5_001_000, 0)], 1_000, 200, 2);
    assert!(a.index_at(&SYM, 500).is_some(), "fresh enough");
    assert_eq!(a.index_at(&SYM, 2_000), None, "all stale: freeze");
    assert!(a.health.frozen >= 1);
}

#[test]
fn below_min_sources_freezes() {
    let mut a = agg(&[(5_000_000, 100)], 1_000, 200, 2);
    assert_eq!(a.index_at(&SYM, 100), None, "1 < min_sources=2");
    // And if outlier rejection kills the quorum, freeze too.
    let mut a = agg(&[(5_000_000, 100), (9_000_000, 100)], 1_000, 200, 2);
    assert_eq!(a.index_at(&SYM, 100), None, "post-rejection quorum lost");
}

#[test]
fn clamp_keeps_mark_inside_band() {
    let index = 5_000_000;
    // 50 bps either way: [4_975_000, 5_025_000].
    assert_eq!(clamped_mark(6_000_000, index, 50), 5_025_000, "pump capped");
    assert_eq!(clamped_mark(4_000_000, index, 50), 4_975_000, "dump capped");
    assert_eq!(clamped_mark(5_010_000, index, 50), 5_010_000, "honest mid passes");
}

#[test]
fn index_settings_have_defaults() {
    let a = IndexAggregator::new(Vec::new(), None, Some("x"), None);
    assert_eq!((a.staleness_ms, a.outlier_bps, a.min_sources), (30_000, 200, 2));
    let a = IndexAggregator::new(Vec::new(), Some("5"), Some("6"), Some("7"));
    assert_eq!((a.staleness_ms, a.outlier_bps, a.min_sources), (5, 6, 7));
}

#[test]
fn sources_keep_symbols_apart_and_drop_bad_quotes() {
    let other: [u8; 16] = *b"ETH_USDT\0\0\0\0\0\0\0\0";
    let mut s = SharedSource::new("venue".to_string());
    s.store(SYM, 10, 100);
    s.store(other, 20, 100);
    s.store(SYM, 0, 200);
    assert_eq!(s.fresh(&SYM, 150, 100), Some(10));
    assert_eq!(s.fresh(&other, 150, 100), Some(20));
    assert_eq!(s.fresh(&SYM, 1_000, 100), None);
}

#[test]
fn sources_are_named_by_the_setting() {
    assert_eq!(source_names("binance, okx,,  bybit "), vec!["binance", "okx", "bybit"]);
    assert!(source_names("").is_empty());
    assert!(source_names(" , ").is_empty());
}

#[test]
fn the_address_holds_the_symbol_in_each_form() {
    assert_eq!(
        source_address("https://x/?s={BASEQUOTE}&t={BASE_QUOTE}&u={BASE-QUOTE}", "BTC_USDT"),
        "https://x/?s=BTCUSDT&t=BTC_USDT&u=BTC-USDT"
    );
    assert_eq!(source_address("{BASEQUOTE}/{BASE-QUOTE}", "GOLD"), "GOLD/GOLD-");
}
