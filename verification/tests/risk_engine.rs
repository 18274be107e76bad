use desk::risk::engine::{MarginError, RiskEngine};
use desk::risk::types::{PositionSide, RiskStatus};

fn make_engine_with_account(balance_cents: i64) -> (RiskEngine, i64) {
    let mut engine = RiskEngine::new();
    let user_id = 42i64;
    engine.initialize_account(user_id, balance_cents);
    (engine, user_id)
}

fn btc_sym() -> [u8; 16] {
    let mut s = [0u8; 16];
    s[..7].copy_from_slice(b"BTC_USD");
    s[7] = b'T';
    s
}

fn eth_sym() -> [u8; 16] {
    let mut s = [0u8; 16];
    s[..7].copy_from_slice(b"ETH_USD");
    s[7] = b'T';
    s
}

// BTC_USDT: price tick 0.01, lot 0.000001.
const NOTIONAL_SCALE: i64 = 1_000_000;
const LEVERAGE: u8 = 10;
const MAINT_BPS: i64 = 50;
/// Atoms per cent.
const A: i64 = 1_000_000;

#[test]
fn initialize_account_sets_available_margin() {
    let (engine, user_id) = make_engine_with_account(100_000 * A);
    let state = engine.account(user_id).unwrap();
    assert_eq!(state.available_margin, 100_000 * A);
    assert_eq!(state.order_margin, 0);
    assert_eq!(state.used_margin, 0);
    assert_eq!(state.equity, 100_000 * A);
}

#[test]
fn reserve_margin_succeeds_when_sufficient() {
    let (mut engine, user_id) = make_engine_with_account(100_000 * A);
    let result = engine.check_and_reserve_margin(user_id, 10_000 * A);
    assert_eq!(result, Ok(10_000 * A));
    let state = engine.account(user_id).unwrap();
    assert_eq!(state.available_margin, 90_000 * A);
    assert_eq!(state.order_margin, 10_000 * A);
}

#[test]
fn reserve_margin_fails_when_insufficient() {
    let (mut engine, user_id) = make_engine_with_account(5_000 * A);
    let result = engine.check_and_reserve_margin(user_id, 10_000 * A);
    assert!(result.is_err());
    let state = engine.account(user_id).unwrap();
    assert_eq!(state.available_margin, 5_000 * A);
    assert_eq!(state.order_margin, 0);
}

#[test]
fn release_restores_available_margin() {
    let (mut engine, user_id) = make_engine_with_account(100_000 * A);
    engine.check_and_reserve_margin(user_id, 10_000 * A).unwrap();
    engine.release_order_margin(user_id, 10_000 * A);
    let state = engine.account(user_id).unwrap();
    assert_eq!(state.available_margin, 100_000 * A);
    assert_eq!(state.order_margin, 0);
}

#[test]
fn concurrent_reserve_one_must_fail() {
    let mut engine = RiskEngine::new();
    let user_id = 7i64;
    engine.initialize_account(user_id, 15_000 * A);
    let mut success = 0;
    let mut failure = 0;
    for _ in 0..2 {
        match engine.check_and_reserve_margin(user_id, 10_000 * A) {
            Ok(_) => success += 1,
            Err(_) => failure += 1,
        }
    }
    assert_eq!(success, 1);
    assert_eq!(failure, 1);
    let state = engine.account(user_id).unwrap();
    assert_eq!(state.available_margin, 5_000 * A);
    assert_eq!(state.order_margin, 10_000 * A);
}

#[test]
fn liquidation_pending_account_rejected() {
    let mut engine = RiskEngine::new();
    let user_id = 99i64;
    engine.initialize_account(user_id, 100_000 * A);
    assert!(engine.set_account_status(user_id, RiskStatus::LiquidationPending));
    assert!(engine.check_and_reserve_margin(user_id, 1_000 * A).is_err());
}

// 0.1 BTC at $50,000: $5,000 of notional, $500 of margin at ten times.
const PRICE_TICKS: i64 = 5_000_000;
const QTY_LOTS: i64 = 100_000;
const MARGIN_ATOMS: i64 = 50_000 * A;

fn setup_with_reserved(balance_atoms: i64) -> (RiskEngine, i64) {
    let (mut engine, uid) = make_engine_with_account(balance_atoms);
    engine.check_and_reserve_margin(uid, MARGIN_ATOMS).unwrap();
    (engine, uid)
}

#[test]
fn open_interest_tracks_position_lifecycle() {
    let (mut engine, uid) = setup_with_reserved(10_000_000 * A);
    let sym = btc_sym();
    assert_eq!(engine.symbol_open_interest_lots(&sym), 0);

    engine.on_fill(uid, sym, 0, PRICE_TICKS, QTY_LOTS, MARGIN_ATOMS,
        NOTIONAL_SCALE, LEVERAGE, MAINT_BPS, 0);
    assert_eq!(engine.symbol_open_interest_lots(&sym), QTY_LOTS);

    engine.check_and_reserve_margin(uid, MARGIN_ATOMS / 2).unwrap();
    engine.on_fill(uid, sym, 0, PRICE_TICKS, QTY_LOTS / 2, MARGIN_ATOMS / 2,
        NOTIONAL_SCALE, LEVERAGE, MAINT_BPS, 0);
    assert_eq!(engine.symbol_open_interest_lots(&sym), QTY_LOTS + QTY_LOTS / 2);

    engine.on_fill(uid, sym, 1, PRICE_TICKS, QTY_LOTS / 2, 0,
        NOTIONAL_SCALE, LEVERAGE, MAINT_BPS, 0);
    assert_eq!(engine.symbol_open_interest_lots(&sym), QTY_LOTS);

    engine.on_fill(uid, sym, 1, PRICE_TICKS, QTY_LOTS, 0,
        NOTIONAL_SCALE, LEVERAGE, MAINT_BPS, 0);
    assert_eq!(engine.symbol_open_interest_lots(&sym), 0);
}

#[test]
fn position_and_oi_limits_enforced_o1() {
    let (mut engine, uid) = setup_with_reserved(10_000_000 * A);
    let sym = btc_sym();

    assert!(engine.check_position_limit(uid, &sym, i64::MAX / 2, 0).is_ok());
    assert!(engine.check_symbol_oi_limit(&sym, i64::MAX / 2, 0).is_ok());

    assert!(engine.check_position_limit(uid, &sym, 100, 100).is_ok());
    assert!(engine.check_position_limit(uid, &sym, 101, 100).is_err());

    engine.on_fill(uid, sym, 0, PRICE_TICKS, QTY_LOTS, MARGIN_ATOMS,
        NOTIONAL_SCALE, LEVERAGE, MAINT_BPS, 0);
    assert!(engine.check_position_limit(uid, &sym, QTY_LOTS / 2, QTY_LOTS + QTY_LOTS / 2).is_ok());
    assert!(engine.check_position_limit(uid, &sym, QTY_LOTS / 2 + 1, QTY_LOTS + QTY_LOTS / 2).is_err());

    assert!(engine.check_symbol_oi_limit(&sym, QTY_LOTS, 2 * QTY_LOTS).is_ok());
    assert!(engine.check_symbol_oi_limit(&sym, QTY_LOTS + 1, 2 * QTY_LOTS).is_err());

    assert!(engine.check_position_limit(uid, &sym, i64::MAX, 1).is_err());
}

#[test]
fn on_fill_opens_long_position() {
    let (mut engine, uid) = setup_with_reserved(200_000 * A);
    engine.on_fill(uid, btc_sym(), 0, PRICE_TICKS, QTY_LOTS, MARGIN_ATOMS,
        NOTIONAL_SCALE, LEVERAGE, MAINT_BPS, 0);

    let pos = engine.position(uid, &btc_sym()).unwrap();
    assert_eq!(pos.qty_lots, QTY_LOTS);
    assert_eq!(pos.entry_price_ticks, PRICE_TICKS);
    assert_eq!(pos.side, PositionSide::Long);
    assert_eq!(pos.initial_margin, MARGIN_ATOMS);

    let acct = engine.account(uid).unwrap();
    assert_eq!(acct.order_margin, 0);
    assert_eq!(acct.used_margin, MARGIN_ATOMS);
}

#[test]
fn on_fill_opens_short_position() {
    let (mut engine, uid) = setup_with_reserved(200_000 * A);
    engine.on_fill(uid, btc_sym(), 1, PRICE_TICKS, QTY_LOTS, MARGIN_ATOMS,
        NOTIONAL_SCALE, LEVERAGE, MAINT_BPS, 0);

    let pos = engine.position(uid, &btc_sym()).unwrap();
    assert_eq!(pos.side, PositionSide::Short);
    assert_eq!(pos.qty_lots, QTY_LOTS);
}

#[test]
fn on_fill_adds_to_existing_long_vwap() {
    let (mut engine, uid) = make_engine_with_account(500_000 * A);
    engine.check_and_reserve_margin(uid, MARGIN_ATOMS).unwrap();
    engine.on_fill(uid, btc_sym(), 0, PRICE_TICKS, QTY_LOTS, MARGIN_ATOMS,
        NOTIONAL_SCALE, LEVERAGE, MAINT_BPS, 0);

    let price2 = 5_500_000i64;
    engine.check_and_reserve_margin(uid, MARGIN_ATOMS).unwrap();
    engine.on_fill(uid, btc_sym(), 0, price2, QTY_LOTS, MARGIN_ATOMS,
        NOTIONAL_SCALE, LEVERAGE, MAINT_BPS, 0);

    let pos = engine.position(uid, &btc_sym()).unwrap();
    assert_eq!(pos.qty_lots, QTY_LOTS * 2);
    assert_eq!(pos.entry_price_ticks, 5_250_000);
    assert_eq!(pos.initial_margin, MARGIN_ATOMS * 2);
}

#[test]
fn on_fill_closes_long_fully_releases_margin_and_credits_pnl() {
    let (mut engine, uid) = make_engine_with_account(500_000 * A);
    engine.check_and_reserve_margin(uid, MARGIN_ATOMS).unwrap();
    engine.on_fill(uid, btc_sym(), 0, PRICE_TICKS, QTY_LOTS, MARGIN_ATOMS,
        NOTIONAL_SCALE, LEVERAGE, MAINT_BPS, 0);

    let close_price = 5_500_000i64;
    engine.check_and_reserve_margin(uid, MARGIN_ATOMS).unwrap();
    engine.on_fill(uid, btc_sym(), 1, close_price, QTY_LOTS, MARGIN_ATOMS,
        NOTIONAL_SCALE, LEVERAGE, MAINT_BPS, 0);

    assert!(engine.position(uid, &btc_sym()).is_none());

    let acct = engine.account(uid).unwrap();
    assert_eq!(acct.used_margin, 0);
    assert_eq!(acct.order_margin, 0);
    assert_eq!(acct.available_margin, 550_000 * A);
}

#[test]
fn on_fill_partial_close_reduces_position() {
    let (mut engine, uid) = make_engine_with_account(500_000 * A);
    engine.check_and_reserve_margin(uid, MARGIN_ATOMS).unwrap();
    engine.on_fill(uid, btc_sym(), 0, PRICE_TICKS, QTY_LOTS, MARGIN_ATOMS,
        NOTIONAL_SCALE, LEVERAGE, MAINT_BPS, 0);

    let half_qty = QTY_LOTS / 2;
    let half_margin = MARGIN_ATOMS / 2;
    engine.check_and_reserve_margin(uid, half_margin).unwrap();
    engine.on_fill(uid, btc_sym(), 1, PRICE_TICKS, half_qty, half_margin,
        NOTIONAL_SCALE, LEVERAGE, MAINT_BPS, 0);

    let pos = engine.position(uid, &btc_sym()).unwrap();
    assert_eq!(pos.qty_lots, half_qty);
    assert_eq!(pos.side, PositionSide::Long);

    let acct = engine.account(uid).unwrap();
    assert_eq!(acct.used_margin, half_margin);
    assert_eq!(acct.order_margin, 0);
}

#[test]
fn on_fill_symbol_position_index_maintained() {
    let (mut engine, uid) = setup_with_reserved(200_000 * A);
    engine.on_fill(uid, btc_sym(), 0, PRICE_TICKS, QTY_LOTS, MARGIN_ATOMS,
        NOTIONAL_SCALE, LEVERAGE, MAINT_BPS, 0);

    // A holder is found by the symbol when its mark moves.
    engine.update_mark_price(btc_sym(), 5_100_000, NOTIONAL_SCALE);
    assert_eq!(engine.account(uid).unwrap().unrealized_pnl, 1_000 * A);

    engine.check_and_reserve_margin(uid, MARGIN_ATOMS).unwrap();
    engine.on_fill(uid, btc_sym(), 1, PRICE_TICKS, QTY_LOTS, MARGIN_ATOMS,
        NOTIONAL_SCALE, LEVERAGE, MAINT_BPS, 0);

    // Once closed, the mark no longer reaches the account.
    let closed = engine.account(uid).unwrap();
    engine.update_mark_price(btc_sym(), 6_000_000, NOTIONAL_SCALE);
    let after = engine.account(uid).unwrap();
    assert_eq!(after.unrealized_pnl, 0);
    assert_eq!(after.equity, closed.equity);
}

#[test]
fn on_fill_liquidation_price_set_on_open() {
    let (mut engine, uid) = setup_with_reserved(200_000 * A);
    engine.on_fill(uid, btc_sym(), 0, PRICE_TICKS, QTY_LOTS, MARGIN_ATOMS,
        NOTIONAL_SCALE, LEVERAGE, MAINT_BPS, 0);
    let pos = engine.position(uid, &btc_sym()).unwrap();
    assert_eq!(pos.liquidation_price_ticks, 4_502_500);
    assert_eq!(pos.bankruptcy_price_ticks, 4_500_000);
}

#[test]
fn update_mark_price_sets_ewma_and_upnl() {
    let (mut engine, uid) = setup_with_reserved(500_000 * A);
    engine.on_fill(uid, btc_sym(), 0, PRICE_TICKS, QTY_LOTS, MARGIN_ATOMS,
        NOTIONAL_SCALE, LEVERAGE, MAINT_BPS, 0);

    engine.update_mark_price(btc_sym(), 5_100_000, NOTIONAL_SCALE);

    let pos = engine.position(uid, &btc_sym()).unwrap();
    assert_eq!(pos.mark_price_ticks, 5_010_000);

    let acct = engine.account(uid).unwrap();
    assert_eq!(acct.unrealized_pnl, 1_000 * A);
    assert_eq!(acct.equity, (450_000 + 50_000 + 1_000) * A);
}

#[test]
fn update_mark_price_accumulates_multi_symbol_upnl_incrementally() {
    let (mut engine, uid) = make_engine_with_account(1_000_000 * A);

    engine.check_and_reserve_margin(uid, MARGIN_ATOMS).unwrap();
    engine.on_fill(uid, btc_sym(), 0, PRICE_TICKS, QTY_LOTS, MARGIN_ATOMS,
        NOTIONAL_SCALE, LEVERAGE, MAINT_BPS, 0);

    let eth_price = 300_000i64;
    let eth_qty = 100_000i64;
    let eth_margin = 3_000i64 * A;
    engine.check_and_reserve_margin(uid, eth_margin).unwrap();
    engine.on_fill(uid, eth_sym(), 0, eth_price, eth_qty, eth_margin,
        NOTIONAL_SCALE, LEVERAGE, MAINT_BPS, 0);

    engine.update_mark_price(btc_sym(), 5_100_000, NOTIONAL_SCALE);
    engine.update_mark_price(eth_sym(), 310_000, NOTIONAL_SCALE);

    let btc_pos = engine.position(uid, &btc_sym()).unwrap();
    let btc_upnl = btc_pos.unrealized_pnl;
    let eth_pos = engine.position(uid, &eth_sym()).unwrap();
    let eth_upnl = eth_pos.unrealized_pnl;

    let acct = engine.account(uid).unwrap();
    assert_eq!(acct.unrealized_pnl, btc_upnl + eth_upnl);
    assert_eq!(btc_upnl, 1_000 * A);
    assert_eq!(eth_upnl, 100 * A);
}

#[test]
fn update_mark_price_ignores_zero() {
    let (mut engine, uid) = setup_with_reserved(200_000 * A);
    engine.on_fill(uid, btc_sym(), 0, PRICE_TICKS, QTY_LOTS, MARGIN_ATOMS,
        NOTIONAL_SCALE, LEVERAGE, MAINT_BPS, 0);
    engine.update_mark_price(btc_sym(), 0, NOTIONAL_SCALE);
    let pos = engine.position(uid, &btc_sym()).unwrap();
    assert_eq!(pos.mark_price_ticks, PRICE_TICKS);
}

#[test]
fn risk_tick_normal_when_margin_healthy() {
    let (mut engine, uid) = setup_with_reserved(500_000 * A);
    engine.on_fill(uid, btc_sym(), 0, PRICE_TICKS, QTY_LOTS, MARGIN_ATOMS,
        NOTIONAL_SCALE, LEVERAGE, MAINT_BPS, 0);
    let events = engine.run_risk_tick();
    assert!(events.is_empty());
    let acct = engine.account(uid).unwrap();
    assert_eq!(acct.status, RiskStatus::Normal);
}

#[test]
fn risk_tick_ignores_accounts_without_positions() {
    let mut engine = RiskEngine::new();
    for user_id in 1..=1_000 {
        engine.initialize_account(user_id, 100_000);
        engine.move_cash(user_id, -100_001);
        assert_eq!(engine.account(user_id).unwrap().equity, -1);
    }

    let events = engine.run_risk_tick();
    assert!(events.is_empty());
    for user_id in 1..=1_000 {
        assert_eq!(engine.account(user_id).unwrap().status, RiskStatus::Normal);
    }
}

#[test]
fn account_maintenance_margin_aggregated_from_positions() {
    let (mut engine, uid) = setup_with_reserved(500_000 * A);
    engine.on_fill(uid, btc_sym(), 0, PRICE_TICKS, QTY_LOTS, MARGIN_ATOMS,
        NOTIONAL_SCALE, LEVERAGE, MAINT_BPS, 0);
    let acct = engine.account(uid).unwrap();
    assert_eq!(acct.maintenance_margin, 2_500 * A);
}

#[test]
fn account_maintenance_margin_updates_incrementally_across_symbols() {
    let (mut engine, uid) = make_engine_with_account(1_000_000 * A);

    engine.check_and_reserve_margin(uid, MARGIN_ATOMS).unwrap();
    engine.on_fill(uid, btc_sym(), 0, PRICE_TICKS, QTY_LOTS, MARGIN_ATOMS,
        NOTIONAL_SCALE, LEVERAGE, MAINT_BPS, 0);

    let eth_price = 300_000i64;
    let eth_qty = 100_000i64;
    let eth_margin = 3_000i64;
    engine.check_and_reserve_margin(uid, eth_margin).unwrap();
    engine.on_fill(uid, eth_sym(), 0, eth_price, eth_qty, eth_margin,
        NOTIONAL_SCALE, LEVERAGE, MAINT_BPS, 0);

    {
        let acct = engine.account(uid).unwrap();
        assert_eq!(acct.maintenance_margin, (2_500 + 150) * A);
    }

    engine.check_and_reserve_margin(uid, eth_margin).unwrap();
    engine.on_fill(uid, eth_sym(), 1, eth_price, eth_qty, eth_margin,
        NOTIONAL_SCALE, LEVERAGE, MAINT_BPS, 0);

    let acct = engine.account(uid).unwrap();
    assert_eq!(acct.maintenance_margin, 2_500 * A);
}

#[test]
fn risk_tick_triggers_liquidation_pending_when_equity_below_maintenance() {
    let (mut engine, uid) = make_engine_with_account(500_000 * A);
    engine.check_and_reserve_margin(uid, MARGIN_ATOMS).unwrap();
    engine.on_fill(uid, btc_sym(), 0, PRICE_TICKS, QTY_LOTS, MARGIN_ATOMS,
        NOTIONAL_SCALE, LEVERAGE, MAINT_BPS, 0);

    // Equity falls to 2_499 cents, one below the maintenance margin.
    engine.move_cash(uid, -497_501 * A);
    assert_eq!(engine.account(uid).unwrap().equity, 2_499 * A);

    let events = engine.run_risk_tick();
    assert_eq!(events.len(), 1);
    assert_eq!(events[0].user_id, uid);

    let acct = engine.account(uid).unwrap();
    assert_eq!(acct.status, RiskStatus::LiquidationPending);
}

#[test]
fn integration_mark_price_triggers_liquidation() {
    let (mut engine, uid) = make_engine_with_account(52_600 * A);
    engine.check_and_reserve_margin(uid, MARGIN_ATOMS).unwrap();
    engine.on_fill(uid, btc_sym(), 0, PRICE_TICKS, QTY_LOTS, MARGIN_ATOMS,
        NOTIONAL_SCALE, LEVERAGE, MAINT_BPS, 0);

    let mut triggered = false;
    for _ in 0..30 {
        engine.update_mark_price(btc_sym(), 4_400_000, NOTIONAL_SCALE);
        let acct = engine.account(uid).unwrap();
        if acct.equity <= acct.maintenance_margin {
            triggered = true;
            break;
        }
    }
    assert!(
        triggered,
        "equity should drop below maintenance after repeated mark price updates"
    );

    let events = engine.run_risk_tick();
    assert_eq!(events.len(), 1, "should emit one liquidation event");
    assert_eq!(events[0].user_id, uid);
    assert_eq!(events[0].qty_lots, QTY_LOTS);

    let events2 = engine.run_risk_tick();
    assert!(events2.is_empty(), "no duplicate liquidation events");
}

#[test]
fn integration_healthy_account_no_liquidation_events() {
    let (mut engine, uid) = setup_with_reserved(1_000_000 * A);
    engine.on_fill(uid, btc_sym(), 0, PRICE_TICKS, QTY_LOTS, MARGIN_ATOMS,
        NOTIONAL_SCALE, LEVERAGE, MAINT_BPS, 0);

    engine.update_mark_price(btc_sym(), PRICE_TICKS + 50_000, NOTIONAL_SCALE);

    for _ in 0..5 {
        let events = engine.run_risk_tick();
        assert!(events.is_empty());
    }
    let acct = engine.account(uid).unwrap();
    assert_eq!(acct.status, RiskStatus::Normal);
}

#[test]
fn insurance_fund_gains_on_profitable_liquidation_close() {
    let (mut engine, uid) = setup_with_reserved(500_000 * A);
    engine.on_fill(uid, btc_sym(), 0, PRICE_TICKS, QTY_LOTS, MARGIN_ATOMS,
        NOTIONAL_SCALE, LEVERAGE, MAINT_BPS, 0);

    assert!(engine.set_account_status(uid, RiskStatus::Liquidating));

    let close_price_ticks = 5_100_000i64;
    engine.on_fill(uid, btc_sym(), 1, close_price_ticks, QTY_LOTS, 0,
        NOTIONAL_SCALE, LEVERAGE, MAINT_BPS, 0);

    let acct = engine.account(uid).unwrap();
    assert_eq!(acct.status, RiskStatus::Normal);

    assert_eq!(engine.insurance_fund(), 10_000 * A);
}

#[test]
fn liq_price_spread_flows_to_insurance_fund() {
    const SCALE: i64 = 1_000_000;
    let (mut engine, uid) = setup_with_reserved(2_000_000 * A);

    let entry_ticks = 5_000_000i64;
    let qty_lots = 100_000i64;
    let open_notional = entry_ticks * qty_lots / SCALE;
    let open_margin = open_notional / 10;
    engine.check_and_reserve_margin(uid, open_margin).unwrap();
    engine.on_fill(uid, btc_sym(), 0, entry_ticks, qty_lots, open_margin,
        SCALE, 10, 50, 0);

    let liq_ticks = 4_900_000i64;
    let fill_ticks = 4_980_000i64;
    assert!(engine.set_account_status(uid, RiskStatus::Liquidating));

    engine.on_fill(uid, btc_sym(), 1, fill_ticks, qty_lots, 0,
        SCALE, 10, 50, liq_ticks);

    let acct = engine.account(uid).unwrap();
    assert_eq!(acct.status, RiskStatus::Normal);

    assert_eq!(engine.insurance_fund(), 8_000 * A);
}

#[test]
fn insurance_fund_unchanged_on_normal_close() {
    let (mut engine, uid) = setup_with_reserved(500_000 * A);
    engine.on_fill(uid, btc_sym(), 0, PRICE_TICKS, QTY_LOTS, MARGIN_ATOMS,
        NOTIONAL_SCALE, LEVERAGE, MAINT_BPS, 0);

    engine.check_and_reserve_margin(uid, MARGIN_ATOMS).unwrap();
    engine.on_fill(uid, btc_sym(), 1, PRICE_TICKS, QTY_LOTS, MARGIN_ATOMS,
        NOTIONAL_SCALE, LEVERAGE, MAINT_BPS, 0);

    assert_eq!(engine.insurance_fund(), 0);
}

#[test]
fn end_to_end_open_hold_liquidate() {

    const SCALE: i64 = 1_000_000;
    const LEV: u8 = 10;
    const MBPS: i64 = 50;

    const ENTRY_TICKS: i64 = 5_000_000;
    const QTY_LOTS: i64 = 100_000;

    const IM: i64 = 50_000 * 1_000_000;
    const MM: i64 = 2_500 * 1_000_000;
    const LIQ_TICKS: i64 = 4_502_500;
    const BKRPT_TICKS: i64 = 4_500_000;

    const TAKER_BALANCE: i64 = 55_000 * 1_000_000;

    let mut risk = RiskEngine::new();

    const MAKER_ID: i64 = 1;
    const TAKER_ID: i64 = 2;
    risk.initialize_account(MAKER_ID, 10_000_000 * 1_000_000);
    risk.initialize_account(TAKER_ID, TAKER_BALANCE);

    // One crossing buy, filled whole at the entry price.
    let (fill_ticks, fill_lots) = (ENTRY_TICKS, QTY_LOTS);

    risk.check_and_reserve_margin(TAKER_ID, IM).unwrap();
    risk.on_fill(TAKER_ID, btc_sym(), 0, fill_ticks, fill_lots, IM,
        SCALE, LEV, MBPS, 0);

    {
        let pos = risk.position(TAKER_ID, &btc_sym())
            .expect("Phase 3: position must exist");
        assert_eq!(pos.side, PositionSide::Long, "long position");
        assert_eq!(pos.qty_lots, QTY_LOTS, "qty");
        assert_eq!(pos.entry_price_ticks, ENTRY_TICKS, "entry price");
        assert_eq!(pos.initial_margin, IM, "initial margin");
        assert_eq!(pos.maintenance_margin, MM, "maintenance margin");
        assert_eq!(pos.liquidation_price_ticks, LIQ_TICKS, "liq price");
        assert_eq!(pos.bankruptcy_price_ticks, BKRPT_TICKS, "bankruptcy price");
        assert_eq!(pos.unrealized_pnl, 0, "upnl=0 at open (mark=entry)");

        let acct = risk.account(TAKER_ID).unwrap();
        assert_eq!(
            acct.available_margin,
            TAKER_BALANCE - IM,
            "available after open"
        );
        assert_eq!(
            acct.order_margin,
            0,
            "order_margin after fill"
        );
        assert_eq!(acct.used_margin, IM, "used_margin = IM");
        assert_eq!(acct.unrealized_pnl, 0, "upnl=0");
        assert_eq!(acct.maintenance_margin, MM, "account MM");
        assert_eq!(acct.equity, TAKER_BALANCE, "equity = full balance at open");
        assert_eq!(acct.status, RiskStatus::Normal, "status Normal");
    }

    let mut mark_at_trigger = 0i64;
    let mut equity_at_trigger = 0i64;
    for _ in 0..40 {
        risk.update_mark_price(btc_sym(), 4_400_000, SCALE);
        let acct = risk.account(TAKER_ID).unwrap();
        if acct.equity <= acct.maintenance_margin {
            mark_at_trigger = risk.mark_price_ticks(&btc_sym()).unwrap();
            equity_at_trigger = acct.equity;
            break;
        }
    }
    assert!(
        mark_at_trigger > 0,
        "mark price should have dropped enough to trigger liquidation"
    );

    {
        let acct = risk.account(TAKER_ID).unwrap();
        let pos = risk.position(TAKER_ID, &btc_sym()).unwrap();

        assert!(
            mark_at_trigger < LIQ_TICKS,
            "mark {} should be below liq {} when liquidation triggers",
            mark_at_trigger,
            LIQ_TICKS
        );
        assert!(acct.unrealized_pnl < 0, "upnl must be negative");
        assert!(pos.unrealized_pnl < 0, "position upnl matches");
        assert!(
            equity_at_trigger <= MM,
            "equity {} <= MM {}",
            equity_at_trigger,
            MM
        );
        assert_eq!(acct.used_margin, IM, "used_margin unchanged while holding");
        assert_eq!(acct.status, RiskStatus::Normal);
    }

    let events = risk.run_risk_tick();
    assert_eq!(events.len(), 1, "should emit exactly one liquidation event");
    let evt = &events[0];
    assert_eq!(evt.user_id, TAKER_ID, "event user_id");
    assert_eq!(evt.symbol, btc_sym(), "event symbol");
    assert_eq!(evt.side, PositionSide::Long, "event side");
    assert_eq!(evt.qty_lots, QTY_LOTS, "event qty");
    assert_eq!(
        evt.liq_price_ticks, LIQ_TICKS,
        "liq_price_ticks in event: expected {}  ($45,025), got {}",
        LIQ_TICKS, evt.liq_price_ticks
    );

    {
        let acct = risk.account(TAKER_ID).unwrap();
        assert_eq!(acct.status, RiskStatus::LiquidationPending);
    }

    assert!(risk.set_account_status(TAKER_ID, RiskStatus::Liquidating));

    let actual_fill_ticks: i64 = 4_600_000;
    let liq_price_ticks: i64 = evt.liq_price_ticks;

    let realized_pnl: i64 = (liq_price_ticks - ENTRY_TICKS) * QTY_LOTS / SCALE * 1_000_000;
    assert_eq!(realized_pnl, -49_750 * 1_000_000, "pre-computed realized PnL");

    let expected_insurance: i64 =
        (actual_fill_ticks - liq_price_ticks) * QTY_LOTS / SCALE * 1_000_000;
    assert_eq!(
        expected_insurance,
        9_750 * 1_000_000,
        "pre-computed insurance fund credit"
    );

    risk.on_fill(TAKER_ID, btc_sym(), 1, actual_fill_ticks, QTY_LOTS, 0,
        SCALE, LEV, MBPS, liq_price_ticks);

    {
        assert!(
            risk.position(TAKER_ID, &btc_sym()).is_none(),
            "position should be removed after liquidation close"
        );

        let acct = risk.account(TAKER_ID).unwrap();

        assert_eq!(
            acct.status,
            RiskStatus::Normal,
            "status reset to Normal after liq close"
        );

        assert_eq!(acct.used_margin, 0, "used_margin = 0 after close");
        assert_eq!(acct.unrealized_pnl, 0, "upnl = 0 after close");

        let expected_available = (TAKER_BALANCE - IM) + IM + realized_pnl;
        assert_eq!(
            acct.available_margin,
            expected_available.max(0),
            "available_margin after liq: expected {} (${})",
            expected_available,
            expected_available / 100_000_000
        );

        assert_eq!(acct.equity, expected_available.max(0), "equity after close");

        assert_eq!(acct.order_margin, 0, "order_margin = 0");

        assert_eq!(
            risk.insurance_fund(),
            expected_insurance,
            "insurance fund: expected {} ({} fill - {} liq) × qty / scale",
            expected_insurance,
            actual_fill_ticks,
            liq_price_ticks
        );
    }
}
fn signed_lots(engine: &RiskEngine, user_id: i64, sym: &[u8; 16]) -> i64 {
    match engine.position(user_id, sym) {
        Some(p) => match p.side {
            PositionSide::Long => p.qty_lots,
            PositionSide::Short => -p.qty_lots,
        },
        None => 0,
    }
}

#[test]
fn trades_leave_longs_and_shorts_even() {
    let sym = btc_sym();
    let mut engine = RiskEngine::new();
    for user in [1, 2, 3] {
        engine.initialize_account(user, 10_000_000 * A);
    }
    for (buyer, seller, qty) in [(1, 2, 4_000), (3, 1, 6_000), (2, 3, 9_000)] {
        engine.on_fill(buyer, sym, 0, PRICE_TICKS, qty, 0, NOTIONAL_SCALE, LEVERAGE, MAINT_BPS, 0);
        engine.on_fill(seller, sym, 1, PRICE_TICKS, qty, 0, NOTIONAL_SCALE, LEVERAGE, MAINT_BPS, 0);
        let net: i64 = [1, 2, 3].iter().map(|u| signed_lots(&engine, *u, &sym)).sum();
        assert_eq!(net, 0);
    }
    assert_eq!(signed_lots(&engine, 1, &sym), -2_000);
    assert_eq!(signed_lots(&engine, 2, &sym), 5_000);
    assert_eq!(signed_lots(&engine, 3, &sym), -3_000);
}

#[test]
fn used_margin_is_the_sum_over_positions() {
    let (mut engine, uid) = make_engine_with_account(10_000_000 * A);
    let (btc, eth) = (btc_sym(), eth_sym());
    let sum = |engine: &RiskEngine| -> i64 {
        [btc, eth].iter().filter_map(|s| engine.position(uid, s)).map(|p| p.initial_margin).sum()
    };
    engine.check_and_reserve_margin(uid, 3 * MARGIN_ATOMS).unwrap();
    engine.on_fill(uid, btc, 0, PRICE_TICKS, QTY_LOTS, MARGIN_ATOMS,
        NOTIONAL_SCALE, LEVERAGE, MAINT_BPS, 0);
    engine.on_fill(uid, eth, 1, PRICE_TICKS, QTY_LOTS, MARGIN_ATOMS,
        NOTIONAL_SCALE, LEVERAGE, MAINT_BPS, 0);
    assert_eq!(engine.account(uid).unwrap().used_margin, 2 * MARGIN_ATOMS);
    assert_eq!(sum(&engine), 2 * MARGIN_ATOMS);
    engine.update_mark_price(btc, PRICE_TICKS + 100, NOTIONAL_SCALE);
    assert_eq!(sum(&engine), engine.account(uid).unwrap().used_margin);
    engine.on_fill(uid, btc, 1, PRICE_TICKS, QTY_LOTS / 2, 0,
        NOTIONAL_SCALE, LEVERAGE, MAINT_BPS, 0);
    assert_eq!(sum(&engine), engine.account(uid).unwrap().used_margin);
    assert_eq!(sum(&engine), MARGIN_ATOMS + MARGIN_ATOMS / 2);
}

#[test]
fn a_close_keeps_the_sum_while_it_sets_free_no_more_than_is_used() {
    let (mut engine, uid) = make_engine_with_account(10_000_000 * A);
    let (btc, eth) = (btc_sym(), eth_sym());
    let sum = |engine: &RiskEngine| -> i64 {
        [btc, eth].iter().filter_map(|s| engine.position(uid, s)).map(|p| p.initial_margin).sum()
    };
    engine.on_fill(uid, btc, 0, PRICE_TICKS, QTY_LOTS, MARGIN_ATOMS,
        NOTIONAL_SCALE, LEVERAGE, MAINT_BPS, 0);
    engine.on_fill(uid, eth, 1, PRICE_TICKS, QTY_LOTS, -(MARGIN_ATOMS / 2),
        NOTIONAL_SCALE, LEVERAGE, MAINT_BPS, 0);
    assert_eq!(sum(&engine), MARGIN_ATOMS / 2, "an opening keeps it, whatever its margin");
    assert_eq!(engine.account(uid).unwrap().used_margin, MARGIN_ATOMS / 2);
    engine.on_fill(uid, btc, 1, PRICE_TICKS, QTY_LOTS / 2, 0,
        NOTIONAL_SCALE, LEVERAGE, MAINT_BPS, 0);
    assert_eq!(sum(&engine), 0);
    assert_eq!(engine.account(uid).unwrap().used_margin, 0);
    // The rest sets free half the margin while none is in use: used margin
    // stays at zero and the sum falls below it.
    engine.on_fill(uid, btc, 1, PRICE_TICKS, QTY_LOTS / 2, 0,
        NOTIONAL_SCALE, LEVERAGE, MAINT_BPS, 0);
    assert_eq!(sum(&engine), -(MARGIN_ATOMS / 2));
    assert_eq!(engine.account(uid).unwrap().used_margin, 0);
}

#[test]
fn a_refused_reserve_needs_no_room() {
    let mut engine = RiskEngine::new();
    engine.initialize_account(1, -5);
    assert_eq!(
        engine.check_and_reserve_margin(1, i64::MAX),
        Err(MarginError::InsufficientMargin)
    );
    assert_eq!(engine.account(1).unwrap().available_margin, -5);
}
