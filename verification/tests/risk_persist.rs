use desk::persist_event::{pack_str, unpack_str, PersistBody, PersistKind};
use desk::risk::engine::RiskEngine;
use desk::risk::types::{PositionSide, RiskStatus};
use desk::risk_persist::{cents_to_atoms, margin_state_frames};

const SYM: [u8; 16] = *b"BTC_USDT\0\0\0\0\0\0\0\0";

fn engine_with_fill() -> RiskEngine {
    let mut engine = RiskEngine::new();
    engine.initialize_account(7, 1_000_000);
    engine.check_and_reserve_margin(7, 10_000).expect("reserve margin");
    // Opens a long of ten lots at 50_000 ticks.
    engine.on_fill(7, SYM, 0, 50_000, 10, 10_000, 1_000_000, 10, 50, 0);
    engine
}

#[test]
fn open_position_emits_upsert_account_and_fund() {
    let engine = engine_with_fill();
    let frames = margin_state_frames(&engine, 7, &SYM);
    assert_eq!(frames.len(), 3);

    match &frames[0].body {
        PersistBody::PositionUpsert(pos) => {
            assert_eq!(pos.user_id, 7);
            assert_eq!(pos.side, PositionSide::Long.to_u8());
            assert_eq!(pos.qty_lots, 10);
            assert_eq!(pos.entry_price_ticks, 50_000);
            assert_eq!(pos.used_margin_atoms, 10_000 * 1_000_000);
            assert_eq!(unpack_str(&pos.symbol), "BTC_USDT");
        }
        _ => panic!("position frame"),
    }
    match &frames[1].body {
        PersistBody::RiskAccountSet(acct) => {
            assert_eq!(acct.user_id, 7);
            assert_eq!(acct.status, RiskStatus::Normal.to_u8());
            // Nothing is realised by opening: the equity is the deposit.
            assert_eq!(acct.equity_atoms, 1_000_000 * 1_000_000);
        }
        _ => panic!("account frame"),
    }
    match &frames[2].body {
        PersistBody::InsuranceFundSet(fund) => assert_eq!(fund.balance_atoms, 0),
        _ => panic!("fund frame"),
    }
}

#[test]
fn flat_user_emits_delete() {
    let mut engine = RiskEngine::new();
    engine.initialize_account(8, 500_000);
    let frames = margin_state_frames(&engine, 8, &SYM);
    assert_eq!(frames[0].kind(), Some(PersistKind::PositionDelete));
    match &frames[0].body {
        PersistBody::PositionDelete(del) => assert_eq!(del.user_id, 8),
        _ => panic!("delete frame"),
    }
}

#[test]
fn saturating_conversion_never_wraps() {
    assert_eq!(cents_to_atoms(i64::MAX), i64::MAX);
    assert_eq!(cents_to_atoms(i64::MIN), i64::MIN);
    assert_eq!(cents_to_atoms(-5), -5_000_000);
}

#[test]
fn symbol_roundtrip_helper_matches_pack() {
    let packed = pack_str("ETH_USDT");
    assert_eq!(unpack_str(&packed), "ETH_USDT");
}
