use desk::risk::calc::{
    calc_bankruptcy_price_ticks, calc_initial_margin_atoms, calc_liquidation_price_ticks,
    calc_maintenance_margin_atoms, calc_notional_atoms, calc_unrealized_pnl_atoms, fee_atoms,
    liquidation_tranche_lots, max_leverage_for_notional, parse_risk_tiers,
};
use desk::risk::types::PositionSide;

// BTC_USDT: price_tick=0.01, qty_step=0.000001
// notional_scale = 1_000_000
// price = $50,000 → price_ticks = 5_000_000 (50000 / 0.01)
// qty = 0.001 BTC → qty_lots = 1000 (0.001 / 0.000001)
// notional = $50 → notional_atoms = 5_000_000_000 (50 USDT × 1e8)
const BTC_SCALE: i64 = 1_000_000;
const A: i64 = 1_000_000; // atoms per cent, for readable expectations

#[test]
fn notional_btc_50k_001btc() {
    // price = 50000, price_ticks = 50000 / 0.01 = 5_000_000
    // qty = 0.001, qty_lots = 0.001 / 0.000001 = 1000
    // notional = price_ticks * qty_lots / scale = 5_000_000 * 1000 / 1_000_000 = 5000 cents = $50
    let price_ticks = 5_000_000i64;
    let qty_lots = 1000i64;
    let notional = calc_notional_atoms(price_ticks, qty_lots, BTC_SCALE);
    assert_eq!(notional, 5000 * A); // $50 in atoms
}

#[test]
fn initial_margin_10x() {
    // notional $50, leverage 10 → initial margin $5
    let margin = calc_initial_margin_atoms(5000 * A, 10);
    assert_eq!(margin, 500 * A);
}

#[test]
fn maintenance_margin_50bps() {
    // notional $50, rate 50bps → mm = $0.25
    let mm = calc_maintenance_margin_atoms(5000 * A, 50);
    assert_eq!(mm, 25 * A);
}

#[test]
fn liquidation_price_long_10x_50bps() {
    // entry = $50,000, leverage = 10, rate = 50bps
    // liq = entry * (10 * 10000 - 10000 + 50) / (10 * 10000)
    //     = entry * (100000 - 10000 + 50) / 100000
    //     = entry * 90050 / 100000
    //     = 50000 * 90050 / 100000 = 45025
    let price_ticks = 5_000_000i64;
    let liq = calc_liquidation_price_ticks(price_ticks, 10, 50, PositionSide::Long);
    // 5_000_000 * 90050 / 100000 = 4_502_500
    assert_eq!(liq, 4_502_500);
}

#[test]
fn liquidation_price_short_10x_50bps() {
    // short: entry * (10 * 10000 + 10000 - 50) / (10 * 10000)
    //      = entry * (100000 + 10000 - 50) / 100000
    //      = entry * 109950 / 100000
    //      = 50000 * 109950 / 100000 = 54975
    let price_ticks = 5_000_000i64;
    let liq = calc_liquidation_price_ticks(price_ticks, 10, 50, PositionSide::Short);
    // 5_000_000 * 109950 / 100000 = 5_497_500
    assert_eq!(liq, 5_497_500);
}

#[test]
fn bankruptcy_price_long_10x() {
    // long: entry * (10-1) / 10 = 50000 * 9/10 = 45000
    let price_ticks = 5_000_000i64;
    let bk = calc_bankruptcy_price_ticks(price_ticks, 10, PositionSide::Long);
    // 5_000_000 * 9 / 10 = 4_500_000
    assert_eq!(bk, 4_500_000);
}

#[test]
fn bankruptcy_price_short_10x() {
    // short: entry * (10+1) / 10 = 50000 * 11/10 = 55000
    let price_ticks = 5_000_000i64;
    let bk = calc_bankruptcy_price_ticks(price_ticks, 10, PositionSide::Short);
    // 5_000_000 * 11 / 10 = 5_500_000
    assert_eq!(bk, 5_500_000);
}

#[test]
fn unrealized_pnl_long_positive() {
    // long, entry=$50000, mark=$51000, qty=0.001 BTC
    // pnl = (51000 - 50000) * 1000 / 1_000_000 = 1_000_000 / 1_000_000 = 1000000/1000000
    // entry_ticks=5_000_000, mark_ticks=5_100_000, qty_lots=1000
    // diff = 100_000, pnl = 100_000 * 1000 / 1_000_000 = 100 cents = $1
    let pnl =
        calc_unrealized_pnl_atoms(PositionSide::Long, 1000, 5_000_000, 5_100_000, BTC_SCALE);
    assert_eq!(pnl, 100 * A); // $1
}

#[test]
fn unrealized_pnl_long_negative() {
    // mark < entry → negative pnl
    let pnl =
        calc_unrealized_pnl_atoms(PositionSide::Long, 1000, 5_100_000, 5_000_000, BTC_SCALE);
    assert_eq!(pnl, -100 * A);
}

#[test]
fn leverage_1_initial_margin_equals_notional() {
    let notional = calc_notional_atoms(5_000_000, 1000, BTC_SCALE);
    let margin = calc_initial_margin_atoms(notional, 1);
    assert_eq!(margin, notional);
}

#[test]
fn tiny_position_no_overflow() {
    // One lot at $50000: margins below a cent keep their value.
    let notional = calc_notional_atoms(5_000_000, 1, BTC_SCALE);
    assert_eq!(notional, 5 * A);
    let margin = calc_initial_margin_atoms(notional, 10);
    assert_eq!(margin, 500_000);
}

#[test]
fn fee_basic_and_rebate() {
    // 5000 USDT notional = 5e11 atoms; 5 bps taker = 2.5 USDT = 2.5e8.
    assert_eq!(fee_atoms(500_000_000_000, 5), 250_000_000);
    // Maker rebate (-1 bp) is a credit (negative fee).
    assert_eq!(fee_atoms(500_000_000_000, -1), -50_000_000);
    assert_eq!(fee_atoms(500_000_000_000, 0), 0);
}

#[test]
fn tranche_folds_dust_and_full_at_10000() {
    // 50% of 100k = 50k; remainder 50k ≥ 20% → partial.
    assert_eq!(liquidation_tranche_lots(100_000, 5_000), 50_000);
    // 90% tranche leaves 10% < 20% → fold to full.
    assert_eq!(liquidation_tranche_lots(100_000, 9_000), 100_000);
    // Default/disabled = full.
    assert_eq!(liquidation_tranche_lots(100_000, 10_000), 100_000);
    // Tiny positions never produce a 0-lot order.
    assert_eq!(liquidation_tranche_lots(1, 5_000), 1);
}

#[test]
fn risk_tiers_parse_and_select() {
    let tiers = parse_risk_tiers("1000000:20,5000000:10,:5");
    assert_eq!(tiers.len(), 3);
    let a = 100_000_000i64; // atoms per USDT
    assert_eq!(max_leverage_for_notional(500_000 * a, &tiers), 20);
    assert_eq!(max_leverage_for_notional(1_000_000 * a, &tiers), 20, "boundary inclusive");
    assert_eq!(max_leverage_for_notional(3_000_000 * a, &tiers), 10);
    assert_eq!(max_leverage_for_notional(50_000_000 * a, &tiers), 5);
    // Malformed entries are skipped.
    assert!(parse_risk_tiers("nonsense").is_empty());
    assert_eq!(max_leverage_for_notional(1, &[]), 1);
}

/// A position big enough to overflow naive i64
/// math (1000 BTC at $100k) — i128 intermediates make it exact.
#[test]
fn huge_position_no_overflow() {
    let price_ticks = 10_000_000i64; // $100,000
    let qty_lots = 1_000_000_000i64; // 1000 BTC
    // naive i64: ticks*lots*1e6 = 1e22 — would wrap. i128: exact.
    let notional = calc_notional_atoms(price_ticks, qty_lots, BTC_SCALE);
    assert_eq!(notional, 10_000_000_000_000_000); // 100M USDT in atoms
}

/// A fully malformed RISK_TIERS string must produce an empty Vec
/// (no panic, no partially-valid state).
#[test]
fn parse_risk_tiers_malformed_returns_empty() {
    let tiers = parse_risk_tiers("nonsense,alsobad,12345");
    assert!(
        tiers.is_empty(),
        "all malformed entries must yield an empty tier list, got: {:?}",
        tiers
    );
}
