use desk::persist_event::{
    pack_str, AccountSetPayload, MatchingEventPayload, OrderDeletePayload, OrderFillUpdatePayload,
    OrderUpsertPayload, PersistBody, PersistFrame, PersistKind, TradeInsertPayload, MAX_DATE_MS,
    MIN_DATE_MS,
};
use desk::pg_store::{
    backfill_from_redis, dedup_accounts_keep_last, dedup_keep_last_by_id, load_checkpoints,
    missing_ids, side_str, status_str, AccountRow, PgWriteBatch,
};

fn payload(id: i64) -> OrderUpsertPayload {
    OrderUpsertPayload {
        id,
        user_id: 7,
        symbol: pack_str("BTC_USDT"),
        side: 0,
        status: 0,
        order_type: pack_str("limit"),
        price_atoms: Some(7_000_000_000_000),
        qty_atoms: Some(10_000_000),
        filled_atoms: Some(0),
        freeze_price_atoms: Some(7_000_000_000_000),
        client_order_id: pack_str(""),
        created_at_ms: 1_700_000_000_000,
    }
}

fn upsert_frame(id: i64) -> PersistFrame {
    PersistFrame::of(PersistBody::OrderUpsert(payload(id)))
}

#[test]
fn push_decodes_upsert_into_row() {
    let mut b = PgWriteBatch::new();
    assert!(b.push(&upsert_frame(42)));
    assert_eq!(b.upserts().len(), 1);
    assert_eq!(b.upserts()[0].id, 42);
    assert_eq!(b.upserts()[0].symbol, "BTC_USDT");
    assert_eq!(b.upserts()[0].status, "PENDING");
    assert_eq!(b.upserts()[0].price_atoms, Some(7_000_000_000_000));
}

#[test]
fn upsert_with_zero_price_becomes_null() {
    let mut p = payload(99);
    p.price_atoms = Some(0);
    let mut b = PgWriteBatch::new();
    assert!(b.push(&PersistFrame::of(PersistBody::OrderUpsert(p))));
    assert_eq!(b.upserts()[0].price_atoms, None, "zero sentinel is no price");
}

#[test]
fn upsert_with_unknown_status_is_skipped() {
    let mut p = payload(1);
    p.status = 99;
    let mut b = PgWriteBatch::new();
    assert!(!b.push(&PersistFrame::of(PersistBody::OrderUpsert(p))));
    assert_eq!(b.skipped(), 1);
    assert!(b.is_empty());
}

#[test]
fn empty_asset_account_is_skipped() {
    let f = PersistFrame::of(PersistBody::AccountSet(AccountSetPayload {
        user_id: 3,
        asset: pack_str(""),
        balance_atoms: 100_000_000,
        frozen_atoms: 0,
        legacy_balance_atoms: Some(100_000_000),
        legacy_frozen_atoms: Some(0),
    }));
    let mut b = PgWriteBatch::new();
    assert!(!b.push(&f));
    assert_eq!(b.skipped(), 1);
}

#[test]
fn delete_pushes_id_only() {
    let f = PersistFrame::of(PersistBody::OrderDelete(OrderDeletePayload { id: 17 }));
    let mut b = PgWriteBatch::new();
    assert!(b.push(&f));
    assert_eq!(*b.deletes(), vec![17]);
}

#[test]
fn dedup_keep_last_keeps_last_occurrence() {
    #[derive(Clone)]
    struct R {
        id: i64,
        tag: u8,
    }
    let rows = vec![
        R { id: 1, tag: 10 },
        R { id: 2, tag: 20 },
        R { id: 1, tag: 11 }, // overrides id=1
        R { id: 3, tag: 30 },
        R { id: 2, tag: 21 }, // overrides id=2
    ];
    let out = dedup_keep_last_by_id(rows, |r| r.id);
    // Order: positions kept = indices 2,3,4, so ids [1,3,2] with last tags.
    let ids: Vec<i64> = out.iter().map(|r| r.id).collect();
    let tags: Vec<u8> = out.iter().map(|r| r.tag).collect();
    assert_eq!(ids, vec![1, 3, 2]);
    assert_eq!(tags, vec![11, 30, 21]);
}

#[test]
fn dedup_accounts_keeps_last_per_user_asset() {
    fn account_row(user_id: i64, asset: &str, balance: f64, frozen: f64) -> AccountRow {
        AccountRow {
            user_id,
            asset: asset.into(),
            balance_atoms: (balance * 1e8).round() as i64,
            frozen_atoms: (frozen * 1e8).round() as i64,
        }
    }

    let rows = vec![
        account_row(1, "USDT", 100.0, 0.0),
        account_row(2, "USDT", 200.0, 0.0),
        account_row(1, "USDT", 150.0, 5.0), // overrides user=1,USDT
        account_row(1, "BTC", 0.1, 0.0),
    ];
    let out = dedup_accounts_keep_last(rows);
    assert_eq!(out.len(), 3);
    // The "last (user=1, USDT)" row must have balance=150 not 100.
    let usdt_user1 = out
        .iter()
        .find(|r| r.user_id == 1 && r.asset == "USDT")
        .expect("user=1 USDT present");
    assert!((usdt_user1.balance_atoms as f64 / 1e8 - 150.0).abs() < 1e-9);
    assert!((usdt_user1.frozen_atoms as f64 / 1e8 - 5.0).abs() < 1e-9);
}

#[test]
fn fill_with_unknown_status_skipped() {
    // The codes are 0..=4; 99 is out of range.
    let f = PersistFrame::of(PersistBody::OrderFillUpdate(OrderFillUpdatePayload {
        id: 5,
        filled_atoms: Some(10_000_000),
        status: 99,
    }));
    let mut b = PgWriteBatch::new();
    assert!(!b.push(&f));
    assert_eq!(b.skipped(), 1);
}

#[test]
fn dates_end_where_the_calendar_does() {
    let upsert = |ms: i64| {
        let mut p = payload(1);
        p.created_at_ms = ms;
        let mut b = PgWriteBatch::new();
        (b.push(&PersistFrame::of(PersistBody::OrderUpsert(p))), b.skip_counts().upsert_bad_timestamp)
    };
    assert_eq!(upsert(MAX_DATE_MS), (true, 0));
    assert_eq!(upsert(MAX_DATE_MS + 1), (false, 1));
    assert_eq!(upsert(MIN_DATE_MS), (false, 1));
    assert_eq!(upsert(MIN_DATE_MS - 1), (false, 1));
}

#[test]
fn a_negative_time_is_skipped_not_stored() {
    let mut p = payload(1);
    p.created_at_ms = -1;
    let mut b = PgWriteBatch::new();
    assert!(!b.push(&PersistFrame::of(PersistBody::OrderUpsert(p))));
    assert_eq!(b.len(), 0);
    assert_eq!(b.skipped(), 1);
    assert_eq!(b.skip_counts().upsert_bad_timestamp, 1);
    let trade = |ts_ms: i64| {
        PersistFrame::of(PersistBody::TradeInsert(TradeInsertPayload {
            buy_order_id: 1,
            sell_order_id: 2,
            symbol: pack_str("BTC_USDT"),
            price_atoms: Some(5),
            qty_atoms: Some(6),
            ts_ms,
        }))
    };
    assert!(!b.push(&trade(-1)));
    assert_eq!(b.skip_counts().trade_bad_timestamp, 1);
    assert_eq!(b.len(), 0);
    assert!(b.push(&trade(0)));
    assert_eq!(b.len(), 1);
}

#[test]
fn every_reason_to_skip_is_counted_apart() {
    let mut b = PgWriteBatch::new();
    b.push(&PersistFrame::of(PersistBody::Unknown(77)));
    b.push(&PersistFrame::of(PersistBody::Unreadable(PersistKind::TradeInsert)));
    let mut p = payload(1);
    p.symbol = pack_str("");
    b.push(&PersistFrame::of(PersistBody::OrderUpsert(p)));
    let mut p = payload(2);
    p.qty_atoms = None;
    b.push(&PersistFrame::of(PersistBody::OrderUpsert(p)));
    let trade = |symbol: &str, ts_ms: i64| {
        PersistFrame::of(PersistBody::TradeInsert(TradeInsertPayload {
            buy_order_id: 1,
            sell_order_id: 2,
            symbol: pack_str(symbol),
            price_atoms: Some(5),
            qty_atoms: Some(6),
            ts_ms,
        }))
    };
    b.push(&trade("", 0));
    b.push(&trade("BTC_USDT", i64::MAX));
    let event = |symbol: &str, ts_ns: u64| {
        PersistFrame::of(PersistBody::MatchingEvent(MatchingEventPayload {
            sequence: 1,
            response_stream_id: 2,
            event_kind: 3,
            order_id: 4,
            client_order_id: 5,
            participant_id: 6,
            counterparty_order_id: 7,
            symbol: pack_str(symbol),
            price_ticks: 8,
            quantity_lots: 9,
            remaining_lots: 10,
            ts_ns,
        }))
    };
    b.push(&event("", 1));
    let c = b.skip_counts();
    assert_eq!(c.unknown_kind, 1);
    assert_eq!(c.payload_decode_failed, 1);
    assert_eq!(c.upsert_empty_string, 1);
    assert_eq!(c.amount_atoms_invalid, 1);
    assert_eq!(c.trade_empty_symbol, 1);
    assert_eq!(c.trade_bad_timestamp, 1);
    assert_eq!(c.matching_empty_symbol, 1);
    assert_eq!(b.skipped(), 7);
    assert!(b.push(&event("BTC_USDT", 1_700_000_000_000_000_000)));
    assert!(b.push(&trade("BTC_USDT", 1_700_000_000_000)));
    assert_eq!(b.matching_events().len(), 1);
    assert_eq!(b.trades().len(), 1);
}

#[test]
fn a_frame_is_applied_once() {
    let frame = |seq: u64| PersistFrame { publisher_id: 3, seq, body: upsert_frame(1).body };
    let mut b = PgWriteBatch::new();
    assert!(b.push(&frame(5)));
    assert!(!b.push(&frame(5)));
    assert!(!b.push(&frame(4)));
    assert!(b.push(&frame(6)));
    assert!(b.push(&frame(9)));
    assert_eq!(b.duplicate_seq_frames(), 2);
    assert_eq!(b.seq_gap_frames(), 2);
    assert_eq!(b.pending_checkpoints().get(&3), Some(&9));
    b.mark_committed();
    assert!(b.is_empty());
    assert!(!b.push(&frame(9)), "committed frames stay applied");
    assert!(b.push(&frame(10)));
    b.clear_payloads();
    assert!(b.is_empty());
    assert!(b.push(&frame(10)), "frames that were given up may come again");
}

#[test]
fn floors_come_from_stored_checkpoints() {
    let floors = load_checkpoints(&vec![(1, 10), (2, 20)]);
    assert_eq!(floors.get(&1), Some(&10));
    assert_eq!(floors.get(&2), Some(&20));
    let mut b = PgWriteBatch::new();
    b.set_applied_floors(floors);
    assert!(!b.admit_seq(1, 10));
    assert!(b.admit_seq(1, 11));
}

#[test]
fn names_of_codes() {
    assert_eq!(status_str(4), Some("REJECTED"));
    assert_eq!(status_str(5), None);
    assert_eq!(side_str(0), "buy");
    assert_eq!(side_str(1), "sell");
}

#[test]
fn missing_orders_are_written_again() {
    assert_eq!(missing_ids(&vec![1, 2, 3], &vec![2]), vec![1, 3]);
    let field = |k: &str, v: &str| (k.to_string(), v.to_string());
    let hash = vec![
        field("user_id", "7"),
        field("symbol", "BTC_USDT"),
        field("side", "buy"),
        field("order_type", "limit"),
        field("price", "70000"),
        field("qty", "0.1"),
        field("filled", "0"),
        field("status", "PENDING"),
        field("freeze_price", "70000"),
        field("client_order_id", "abc"),
        field("created_at_ms", "1700000000000"),
        field("updated_at_ms", "1700000000000"),
    ];
    let (batch, stats) = backfill_from_redis(5, &vec![1, 3], &vec![hash, Vec::new()]);
    assert_eq!(stats.redis_orders_scanned, 5);
    assert_eq!(stats.missing_in_pg, 2);
    assert_eq!(stats.skipped_decode, 1);
    assert_eq!(batch.upserts().len(), 1);
    assert_eq!(batch.upserts()[0].id, 1);
    assert_eq!(batch.upserts()[0].quantity_atoms, 10_000_000);
    assert_eq!(batch.upserts()[0].client_order_id, Some("abc".to_string()));
}
