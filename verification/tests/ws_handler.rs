use desk::money::{AccountBalance, AmountAtoms};
use desk::order::{Side, TimeInForce};
use desk::order_entry::AccountCache;
use desk::order_state::WsOrderStatus;
use desk::ws_handler::{
    admit_order, after_batch_push, after_cancel_push, after_push, count_cancelled, depth_levels, enter_order, free_funds, hold_funds, ping_delay_ms,
    queue_too_deep, release_for_cancel, release_for_cancels, subscriber_change, take_batch,
    take_order, ws_status_to_byte, Beat, Heartbeat, OpenOrderRow, PricedOrder, Reply, Step, Venue,
    WsSession, MAX_BATCH_ORDERS, PING_INTERVAL_MS,
};
use desk::ws_sbe::{WS_STATUS_OPEN, WS_STATUS_REJECTED};

fn amount(text: &str) -> AmountAtoms {
    AmountAtoms::from_decimal_str(text).unwrap()
}

fn priced(side: &str, price: Option<&str>, qty: &str) -> PricedOrder {
    PricedOrder {
        client_order_id: "7".to_string(),
        symbol: "BTC_USDT".to_string(),
        side: side.to_string(),
        order_type: "limit".to_string(),
        time_in_force: None,
        price: price.map(amount),
        qty: amount(qty),
    }
}

const OPEN_VENUE: Venue = Venue { engines: false, engine: false, queue: true, listed: true };

fn cache_with(atoms: i64) -> AccountCache {
    let mut cache = AccountCache::new();
    cache.cache_set_snapshot(7, "USDT", AccountBalance::from_atoms(atoms, 0));
    cache
}

#[test]
fn a_session_acts_for_nobody_before_it_signs_in() {
    let mut session = WsSession::new();
    assert_eq!(session.user(), None);
    let place = r#"{"type":"place_order","client_order_id":"1","symbol":"BTC_USDT","side":"buy","order_type":"limit","price":1,"qty":1}"#;
    assert!(matches!(
        session.handle_client_message(place),
        Step::Answer(Reply::OrderRejected(t)) if t == "Not authenticated"
    ));
    assert!(matches!(
        session.handle_client_message(r#"{"type":"cancel_all"}"#),
        Step::Answer(Reply::Error(_))
    ));
    assert!(matches!(
        session.handle_client_message(r#"{"type":"auth","token":"t"}"#),
        Step::CheckToken(t) if t == "t"
    ));
    assert!(matches!(session.sign_in(Err("no".to_string())), Reply::AuthError(t) if t == "no"));
    assert_eq!(session.user(), None);
    assert!(matches!(session.sign_in(Ok(7)), Reply::AuthOk(7)));
    assert!(matches!(
        session.handle_client_message(place),
        Step::Place { user_id: 7, order } if order.symbol == "BTC_USDT"
    ));
    assert!(matches!(
        session.handle_client_message(r#"{"type":"cancel_all"}"#),
        Step::CancelAll { user_id: 7 }
    ));
    assert!(matches!(
        session.handle_client_message(r#"{"type":"cancel_order","order_id":5}"#),
        Step::Cancel { user_id: 7, order_id: 5 }
    ));
    assert!(matches!(
        session.handle_client_message(r#"{"type":"batch_cancel","order_ids":[]}"#),
        Step::Answer(Reply::BatchCancelOk(0))
    ));
    assert!(matches!(
        session.handle_client_message(r#"{"type":"ping"}"#),
        Step::Answer(Reply::Pong)
    ));
    assert!(matches!(
        session.handle_client_message("nonsense"),
        Step::Answer(Reply::Error(t)) if t == "Invalid message format"
    ));
}

#[test]
fn subscriptions_follow_requests() {
    let mut session = WsSession::new();
    assert!(!session.subscribes());
    let step = session.handle_client_message(
        r#"{"type":"subscribe","channels":["depth.BTC_USDT","ticker.ETH_USDT","trades.BTC_USDT"]}"#,
    );
    match step {
        Step::Snapshots { depth, ticker } => {
            assert_eq!(depth, vec!["BTC_USDT"]);
            assert_eq!(ticker, vec!["ETH_USDT"]);
        }
        _ => panic!("a subscription asks for snapshots"),
    }
    assert!(session.is_subscribed("trades.BTC_USDT"));
    assert!(session.subscribes());
    let step = session
        .handle_client_message(r#"{"type":"unsubscribe","channels":["trades.BTC_USDT","other"]}"#);
    assert!(matches!(step, Step::Quiet));
    assert!(!session.is_subscribed("trades.BTC_USDT"));
    assert!(session.is_subscribed("depth.BTC_USDT"));
}

#[test]
fn a_batch_is_capped() {
    let one = r#"{"symbol":"BTC_USDT","side":"buy","order_type":"limit","price":5,"qty":1}"#;
    let orders = vec![one; MAX_BATCH_ORDERS + 3].join(",");
    let message = format!(r#"{{"type":"place_orders","batch_id":"b","orders":[{}]}}"#, orders);
    let mut session = WsSession::new();
    session.sign_in(Ok(7));
    match session.handle_client_message(&message) {
        Step::PlaceBatch { user_id, batch_id, orders } => {
            assert_eq!(user_id, 7);
            assert_eq!(batch_id, "b");
            assert_eq!(orders.len(), MAX_BATCH_ORDERS);
        }
        _ => panic!("expected a batch"),
    }
}

#[test]
fn a_turned_away_order_leaves_no_trace() {
    let mut cache = cache_with(600_000_000_000);
    let order = priced("buy", Some("50000"), "0.1");
    let placement = take_order(&mut cache, 7, &order, true, None).unwrap();
    assert_eq!(placement.side, Side::Buy);
    assert_eq!(placement.time_in_force, TimeInForce::GTC);
    assert_eq!(placement.reserve, Some(("USDT".to_string(), amount("5000"))));
    let held = cache.get(7, "USDT");
    assert_eq!(held, Some(AccountBalance::from_atoms(600_000_000_000, 500_000_000_000)));
    assert!(take_order(&mut cache, 7, &order, true, None).is_err(), "not covered");
    assert!(take_order(&mut cache, 7, &order, false, None).is_err(), "not listed");
    assert!(take_order(&mut cache, 7, &priced("hold", None, "1"), true, None).is_err());
    assert_eq!(cache.get(7, "USDT"), held);
    free_funds(&mut cache, 7, &placement);
    assert_eq!(cache.get(7, "USDT"), Some(AccountBalance::from_atoms(600_000_000_000, 0)));
    assert!(hold_funds(&mut cache, 7, &placement));
}

#[test]
fn a_full_queue_is_answered_busy_and_undone() {
    let mut cache = cache_with(600_000_000_000);
    let order = priced("buy", Some("50000"), "0.1");
    let placement = take_order(&mut cache, 7, &order, true, None).unwrap();
    let held = cache.get(7, "USDT");
    let sent = after_push(&mut cache, 7, &placement, 11, true, true);
    assert_eq!(sent.forget, None);
    assert!(matches!(sent.reply, Some(Reply::OrderSubmitted(11))));
    let quiet = after_push(&mut cache, 7, &placement, 11, true, false);
    assert!(quiet.reply.is_none());
    assert_eq!(cache.get(7, "USDT"), held);
    let full = after_push(&mut cache, 7, &placement, 11, false, true);
    assert_eq!(full.forget, Some(11));
    assert!(matches!(full.reply, Some(Reply::OrderRejected(ref r)) if r == "system busy"));
    assert_eq!(cache.get(7, "USDT"), Some(AccountBalance::from_atoms(600_000_000_000, 0)));
}

#[test]
fn batches_and_cancels_tell_of_a_full_queue() {
    let results = vec![(3, 3, WS_STATUS_OPEN)];
    match after_batch_push("b".to_string(), results.clone(), Some(true)) {
        Reply::OrdersPlaced { batch_id, results: lines } => {
            assert_eq!((batch_id.as_str(), lines), ("b", results.clone()));
        }
        other => panic!("{other:?}"),
    }
    assert!(matches!(
        after_batch_push("b".to_string(), Vec::new(), None),
        Reply::OrdersPlaced { .. }
    ));
    match after_batch_push("b".to_string(), results, Some(false)) {
        Reply::Error(text) => assert_eq!(text, "system busy — aeron command queue full"),
        other => panic!("{other:?}"),
    }
    assert!(matches!(after_cancel_push(5, true), Reply::CancelSubmitted(5)));
    assert!(matches!(after_cancel_push(5, false), Reply::Error(ref t) if t == "system busy"));
}

#[test]
fn orders_need_a_venue() {
    let order = priced("sell", Some("50000"), "0.1");
    assert!(enter_order(&order, OPEN_VENUE, None).is_ok());
    assert!(admit_order(&order, OPEN_VENUE, None).is_ok());
    let no_engine = Venue { engines: true, engine: false, queue: false, listed: true };
    assert!(admit_order(&order, no_engine, None).is_err());
    assert!(queue_too_deep(10, Some(10)) != queue_too_deep(0, Some(10)));
    assert!(!queue_too_deep(1_000_000, None));
}

#[test]
fn a_batch_answers_every_order_and_holds_what_it_opens() {
    let mut cache = cache_with(600_000_000_000);
    let buy = || enter_order(&priced("buy", Some("50000"), "0.1"), OPEN_VENUE, None).ok();
    let orders = vec![buy(), None, buy()];
    let outcome = take_batch(&mut cache, 7, &orders, 100);
    assert_eq!(outcome.results.len(), 3);
    assert_eq!(outcome.placed.len(), 1);
    assert_eq!(outcome.placed[0].0, 0);
    let open = outcome.results.iter().filter(|r| r.2 == WS_STATUS_OPEN).count();
    let rejected = outcome.results.iter().filter(|r| r.2 == WS_STATUS_REJECTED).count();
    assert_eq!((open, rejected), (1, 2));
    assert_eq!(
        cache.get(7, "USDT"),
        Some(AccountBalance::from_atoms(600_000_000_000, 500_000_000_000))
    );
}

#[test]
fn a_cancel_returns_the_reservation() {
    let row = |side: &str| OpenOrderRow {
        id: 1,
        symbol: "BTC_USDT".to_string(),
        side: side.to_string(),
        freeze_price: amount("50000"),
        quantity: amount("0.1"),
        filled: amount("0.04"),
    };
    assert_eq!(release_for_cancel(&row("buy")), Some(("USDT".to_string(), amount("3000"))));
    assert_eq!(release_for_cancel(&row("sell")), Some(("BTC".to_string(), amount("0.06"))));
    assert_eq!(release_for_cancels(&vec![row("buy"), row("sell")]).len(), 2);
    assert_eq!(count_cancelled(5, None), 5);
    assert_eq!(count_cancelled(5, Some(true)), 5);
    assert_eq!(count_cancelled(5, Some(false)), 0);
}

#[test]
fn a_connection_without_a_pong_is_closed() {
    let mut beat = Heartbeat::new();
    assert!(matches!(beat.tick(), Beat::Ping));
    beat.pong();
    assert!(matches!(beat.tick(), Beat::Ping));
    assert!(matches!(beat.tick(), Beat::Close));
    for id in [0, 1, 999, u64::MAX] {
        assert!(ping_delay_ms(id) < 2 * PING_INTERVAL_MS);
    }
}

#[test]
fn subscribers_are_counted_on_the_edge() {
    assert_eq!(subscriber_change(false, true), 1);
    assert_eq!(subscriber_change(true, false), -1);
    assert_eq!(subscriber_change(true, true), 0);
    assert_eq!(subscriber_change(false, false), 0);
}

#[test]
fn levels_are_shown_in_amounts() {
    let levels = depth_levels(&vec![(100, 2), (101, 3)], "BTC_USDT");
    assert_eq!(levels, vec![(amount("1"), amount("0.000002")), (amount("1.01"), amount("0.000003"))]);
    assert!(depth_levels(&Vec::new(), "BTC_USDT").is_empty());
    assert_eq!(ws_status_to_byte(WsOrderStatus::Open), WS_STATUS_OPEN);
    assert_eq!(ws_status_to_byte(WsOrderStatus::Rejected), WS_STATUS_REJECTED);
}
