use desk::api::{
    account_set_payload, admit_claims, answer_cancel, answer_hash, answer_order, auth_claims,
    bearer_authorized, bearer_token, cancel_gate, cancel_route, change_password, check_deposit_request, check_gate, check_new_password,
    check_robot, check_test_funds, check_withdrawal_request, client_address, count_deleted,
    demo_floors, ensure_user_owned_by_this_desk, enter_order, force_mark, identity_name, new_order,
    opening_equity, page_limit, place_order, plan_force_close, plan_liquidation, plan_trigger,
    publish_rest_order_upsert, read_withdrawal_move, registration_status, release_for_cancel,
    robot_floors, seed_order, seed_plans, status_filter, test_grants, user_slot,
    warm_account_cache_for, CancelRefusal, CancelRoute, CancelState, EngineReply, PlaceOrderRequest, PlaceTriggerRequest,
    WithdrawalMove, BAD_GATEWAY, BAD_REQUEST, CONFLICT, FORBIDDEN, GATEWAY_TIMEOUT,
    MISDIRECTED_REQUEST, NOT_FOUND, ROBOT_EMAIL, SERVICE_UNAVAILABLE, TOO_MANY_REQUESTS,
    UNAUTHORIZED, USER_TX_CAPACITY,
};
use desk::counter_shard::owner_shard_for_user_id;
use desk::money::{AccountBalance, AmountAtoms};
use desk::order::{Side, TimeInForce, UPDATE_FILLED};
use desk::order_entry::AccountCache;
use desk::persist_event::{unpack_str, PersistBody};
use desk::redis_store::{apply_frame, decode_hash, FramePlan, RedisCommand};
use desk::risk::engine::RiskEngine;
use desk::risk::types::{LiquidationEvent, PositionSide, RiskStatus};
use desk::symbol_rules::SymbolRules;
use desk::trigger::TriggerWhen;
use desk::user_service::{hash_password, make_token, AuthError, Claims};
use std::collections::HashSet;

const BTC: [u8; 16] = *b"BTC_USDT\0\0\0\0\0\0\0\0";

fn amount(text: &str) -> AmountAtoms {
    AmountAtoms::from_decimal_str(text).unwrap()
}

fn order(side: &str, order_type: &str, price: Option<&str>, quantity: &str) -> PlaceOrderRequest {
    PlaceOrderRequest {
        symbol: "BTC_USDT".to_string(),
        side: side.to_string(),
        order_type: order_type.to_string(),
        price: price.map(amount),
        quantity: amount(quantity),
        client_order_id: Some("c-1".to_string()),
        reduce_only: false,
    }
}

fn cache_with(user_id: i64, asset: &str, atoms: i64) -> AccountCache {
    let mut cache = AccountCache::new();
    cache.cache_set_snapshot(user_id, asset, AccountBalance::from_atoms(atoms, 0));
    cache
}

#[test]
fn only_a_bearer_header_holds_a_token() {
    assert_eq!(bearer_token(Some("Bearer abc")), Some("abc".to_string()));
    assert_eq!(bearer_token(Some("Basic abc")), None);
    assert_eq!(bearer_token(None), None);
}

#[test]
fn a_service_is_let_in_by_its_own_long_token_alone() {
    let token = "t".repeat(32);
    let header = format!("Bearer {}", token);
    assert!(bearer_authorized(Some(&token), Some(&header)));
    assert!(!bearer_authorized(Some(&token), Some("Bearer other")));
    assert!(!bearer_authorized(Some(&token), None));
    assert!(!bearer_authorized(None, Some(&header)));
    assert!(!bearer_authorized(Some("short"), Some("Bearer short")));
}

#[test]
fn revoked_users_are_turned_away() {
    let claims = || Claims { sub: 5, email: "a@b.c".to_string(), exp: 10 };
    let mut revoked = HashSet::new();
    assert_eq!(admit_claims(Ok(claims()), &revoked).unwrap().sub, 5);
    revoked.insert(5);
    let refusal = admit_claims(Ok(claims()), &revoked).unwrap_err();
    assert_eq!((refusal.status, refusal.message.as_str()), (UNAUTHORIZED, "token revoked"));
    let refusal = admit_claims(Err(AuthError::InvalidToken), &revoked).unwrap_err();
    assert_eq!(refusal.status, UNAUTHORIZED);
}

#[test]
fn a_call_is_made_by_the_user_of_its_token() {
    let secret = b"a secret of thirty-two bytes, ok";
    let token = make_token(11, "a@b.c", secret, 4_000_000_000, 60).unwrap();
    let header = format!("Bearer {}", token);
    let none = HashSet::new();
    assert_eq!(auth_claims(Some(&header), secret, &none).unwrap().sub, 11);
    assert_eq!(auth_claims(None, secret, &none).unwrap_err().message, "Missing token");
    assert_eq!(auth_claims(Some("Bearer x"), secret, &none).unwrap_err().status, UNAUTHORIZED);
    assert_eq!(auth_claims(Some("Bearer x"), secret, &none).unwrap_err().message, "Invalid token");
    let revoked = HashSet::from([11]);
    assert_eq!(
        auth_claims(Some(&header), secret, &revoked).unwrap_err().message,
        "token revoked"
    );
    let past = make_token(11, "a@b.c", secret, 1_000_000_000, 60).unwrap();
    let header = format!("Bearer {}", past);
    assert_eq!(auth_claims(Some(&header), secret, &none).unwrap_err().message, "Invalid token");
}

#[test]
fn a_user_is_served_by_the_owning_desk_alone() {
    let owner = owner_shard_for_user_id(77);
    assert!(ensure_user_owned_by_this_desk(77, owner).is_ok());
    let misrouted = ensure_user_owned_by_this_desk(77, owner + 1).unwrap_err();
    assert_eq!(misrouted.user_id, 77);
    assert_eq!(misrouted.desk_id, owner + 1);
    assert_eq!(misrouted.owner_shard_id, owner);
}

#[test]
fn channels_are_for_ids_in_range() {
    assert_eq!(user_slot(0), None);
    assert_eq!(user_slot(-3), None);
    assert_eq!(user_slot(1), Some(1));
    assert_eq!(user_slot(USER_TX_CAPACITY as i64), None);
}

#[test]
fn the_gate_checks_rate_then_desk_then_halt_then_shape() {
    let desk = owner_shard_for_user_id(7);
    let good = order("buy", "limit", Some("50000"), "0.001");
    let shape = check_gate(None, 7, desk, false, &good).unwrap();
    assert_eq!(shape.price_ticks, Some(5_000_000));
    assert_eq!(shape.quantity_lots, 1_000);

    let refusal = check_gate(Some("slow down"), 7, desk + 1, true, &good).unwrap_err();
    assert_eq!((refusal.status, refusal.message.as_str()), (TOO_MANY_REQUESTS, "slow down"));
    let refusal = check_gate(None, 7, desk + 1, true, &good).unwrap_err();
    assert_eq!(refusal.status, MISDIRECTED_REQUEST);
    let refusal = check_gate(None, 7, desk, true, &good).unwrap_err();
    assert_eq!(refusal.status, SERVICE_UNAVAILABLE);

    let mut reducing = order("sell", "limit", Some("50000"), "0.001");
    reducing.reduce_only = true;
    assert!(check_gate(None, 7, desk, true, &reducing).is_ok());

    let off_grid = order("buy", "limit", Some("50000.001"), "0.001");
    let refusal = check_gate(None, 7, desk, false, &off_grid).unwrap_err();
    assert_eq!(refusal.status, BAD_REQUEST);
    assert_eq!(refusal.message, "price does not match tick size");
}

#[test]
fn a_buy_sets_its_cost_aside_and_a_sell_its_quantity() {
    let buy = enter_order(&order("buy", "limit", Some("50000"), "0.1"), false, false, None).unwrap();
    assert_eq!(buy.side, Side::Buy);
    assert_eq!(buy.time_in_force, TimeInForce::GTC);
    assert_eq!(buy.freeze_asset, "USDT");
    assert_eq!(buy.freeze_amount, amount("5000"));
    let sell =
        enter_order(&order("sell", "limit", Some("50000"), "0.1"), false, false, None).unwrap();
    assert_eq!(sell.freeze_asset, "BTC");
    assert_eq!(sell.freeze_amount, amount("0.1"));
    assert_eq!(sell.freeze_price, AmountAtoms::zero());
}

#[test]
fn orders_are_refused_for_their_own_reasons() {
    let refused = |req: PlaceOrderRequest, engines: bool| {
        enter_order(&req, engines, false, None).unwrap_err().message
    };
    assert_eq!(refused(order("hold", "limit", Some("1"), "1"), false), "invalid side");
    assert_eq!(refused(order("buy", "iceberg", Some("1"), "1"), false), "unknown order_type");
    assert_eq!(refused(order("buy", "limit", Some("1"), "1"), true), "Unknown symbol: BTC_USDT");
    assert_eq!(
        refused(order("buy", "market", None, "1"), false),
        "Unable to determine buy reservation price"
    );
}

#[test]
fn a_placed_order_holds_funds_and_a_refused_one_does_not() {
    let mut cache = cache_with(7, "USDT", 600_000_000_000);
    let req = order("buy", "limit", Some("50000"), "0.1");
    assert!(place_order(&mut cache, 7, &req, false, false, None).is_ok());
    assert_eq!(
        cache.get(7, "USDT"),
        Some(AccountBalance::from_atoms(600_000_000_000, 500_000_000_000))
    );
    let refusal = place_order(&mut cache, 7, &req, false, false, None).unwrap_err();
    assert_eq!(refusal.message, "Insufficient balance");
    assert_eq!(
        cache.get(7, "USDT"),
        Some(AccountBalance::from_atoms(600_000_000_000, 500_000_000_000))
    );
}

#[test]
fn an_entered_order_is_published_and_reads_back() {
    let mut cache = cache_with(7, "USDT", 600_000_000_000);
    let req = order("buy", "limit", Some("50000"), "0.1");
    let entry = place_order(&mut cache, 7, &req, false, false, None).unwrap();
    let row = new_order(42, 7, &req, entry.freeze_price, 1_700_000_000_000);
    let frames = publish_rest_order_upsert(&cache, &row, "USDT");
    assert_eq!(frames.len(), 2);
    let commands = match apply_frame(&frames[0]) {
        FramePlan::Run(commands) => commands,
        _ => panic!("an order upsert is applied"),
    };
    let fields = match &commands[0] {
        RedisCommand::SetFields { key, fields } => {
            assert_eq!(key, "order:42");
            fields
        }
        _ => panic!("the row comes first"),
    };
    let back = decode_hash(42, fields).unwrap();
    assert_eq!(back.user_id, 7);
    assert_eq!(back.symbol, "BTC_USDT");
    assert_eq!(back.side, "buy");
    assert_eq!(back.status, "PENDING");
    assert_eq!(back.price_atoms, Some(5_000_000_000_000));
    assert_eq!(back.quantity_atoms, 10_000_000);
    assert_eq!(back.freeze_price_atoms, 5_000_000_000_000);
    assert_eq!(back.client_order_id.as_deref(), Some("c-1"));
    match &frames[1].body {
        PersistBody::AccountSet(p) => {
            assert_eq!(unpack_str(&p.asset), "USDT");
            assert_eq!(p.frozen_atoms, 500_000_000_000);
        }
        _ => panic!("the balance comes second"),
    }
    assert_eq!(publish_rest_order_upsert(&AccountCache::new(), &row, "USDT").len(), 1);
    let set = account_set_payload(9, "ETH", AccountBalance::from_atoms(5, 3));
    assert_eq!((set.user_id, set.balance_atoms, set.frozen_atoms), (9, 5, 3));
}

#[test]
fn the_answer_to_an_order_says_what_the_engine_said() {
    let req = order("buy", "limit", Some("50000"), "0.1");
    let row = || new_order(1, 7, &req, amount("50000"), 100);
    let filled = EngineReply::Update { kind: UPDATE_FILLED, filled: amount("0.1") };
    let answered = answer_order(row(), filled, 200).unwrap();
    assert_eq!(answered.status, "COMPLETED");
    assert_eq!(answered.filled_atoms, 10_000_000);
    assert_eq!(answered.updated_at_ms, 200);
    assert_eq!(answered.created_at_ms, 100);
    assert_eq!(answer_order(row(), EngineReply::Closed, 200).unwrap_err().status, GATEWAY_TIMEOUT);
    assert_eq!(
        answer_order(row(), EngineReply::Timeout, 200).unwrap_err().message,
        "Order response timeout"
    );
    assert_eq!(answer_order(row(), EngineReply::NotSent, 200).unwrap_err().status, BAD_GATEWAY);
}

#[test]
fn a_cancellation_is_answered_by_what_became_of_it() {
    assert!(answer_cancel(CancelState::Queued(true)).unwrap());
    assert_eq!(answer_cancel(CancelState::Queued(false)).unwrap_err().status, BAD_GATEWAY);
    assert!(!answer_cancel(CancelState::Deleted(true)).unwrap());
    assert_eq!(answer_cancel(CancelState::Deleted(false)).unwrap_err().status, NOT_FOUND);
    assert_eq!(answer_cancel(CancelState::Missing).unwrap_err().status, NOT_FOUND);
}

#[test]
fn a_cancellation_is_held_to_the_rate_before_the_desk() {
    let owner = owner_shard_for_user_id(77);
    let other = owner + 1;
    assert!(cancel_gate(None, 77, owner).is_ok());
    for desk in [owner, other] {
        match cancel_gate(Some("slow down"), 77, desk) {
            Err(CancelRefusal::Throttled(e)) => {
                assert_eq!((e.status, e.message.as_str()), (TOO_MANY_REQUESTS, "slow down"));
            }
            r => panic!("throttled first, got {:?}", r),
        }
    }
    match cancel_gate(None, 77, other) {
        Err(CancelRefusal::Misrouted(m)) => {
            assert_eq!((m.user_id, m.desk_id, m.owner_shard_id), (77, other, owner));
        }
        r => panic!("another desk's user, got {:?}", r),
    }
}

#[test]
fn a_cancellation_is_queued_only_where_no_engine_runs_here() {
    for engines in [false, true] {
        for queue in [false, true] {
            assert_eq!(cancel_route(false, engines, queue), CancelRoute::Nowhere);
        }
    }
    assert_eq!(cancel_route(true, false, true), CancelRoute::Queue);
    assert_eq!(cancel_route(true, false, false), CancelRoute::Here);
    assert_eq!(cancel_route(true, true, true), CancelRoute::Here);
    assert_eq!(cancel_route(true, true, false), CancelRoute::Here);
}

#[test]
fn a_password_change_is_answered_by_what_hashing_came_to() {
    assert_eq!(answer_hash(Ok("$2b$".to_string())).unwrap(), "$2b$");
    let refusal = answer_hash(Err(AuthError::PasswordNotHashed)).unwrap_err();
    assert_eq!((refusal.status, refusal.message.as_str()), (500, "Hash error"));
}

#[test]
fn a_cancelled_order_gives_its_unfilled_part_back() {
    assert_eq!(
        release_for_cancel("BTC_USDT", "buy", Some(amount("50000")), amount("0.1"), amount("0.04")),
        Some(("USDT".to_string(), amount("3000")))
    );
    assert_eq!(
        release_for_cancel("BTC_USDT", "sell", None, amount("0.1"), amount("0.04")),
        Some(("BTC".to_string(), amount("0.06")))
    );
    assert_eq!(count_deleted(&vec![true, false, true]), 2);
}

#[test]
fn pages_and_filters() {
    assert_eq!(page_limit(None, 50, 200), 50);
    assert_eq!(page_limit(Some(500), 50, 200), 200);
    assert_eq!(page_limit(Some(20), 50, 200), 20);
    assert_eq!(status_filter("open"), vec!["PENDING", "TRADING"]);
    assert_eq!(status_filter("history"), vec!["COMPLETED", "CANCELED", "REJECTED"]);
    assert_eq!(status_filter("TRADING"), vec!["TRADING"]);
}

#[test]
fn money_requests_are_checked_at_the_door() {
    let desk = owner_shard_for_user_id(7);
    assert!(check_deposit_request(true, 5, 7, desk).is_ok());
    assert_eq!(check_deposit_request(false, 5, 7, desk).unwrap_err().status, FORBIDDEN);
    assert_eq!(check_deposit_request(true, 0, 7, desk).unwrap_err().status, BAD_REQUEST);
    assert_eq!(
        check_deposit_request(true, 5, 7, desk + 1).unwrap_err().status,
        MISDIRECTED_REQUEST
    );
    assert!(check_withdrawal_request(5, 7, desk).is_ok());
    assert_eq!(check_withdrawal_request(-1, 7, desk).unwrap_err().status, BAD_REQUEST);
    assert_eq!(check_withdrawal_request(-1, 7, desk + 1).unwrap_err().status, MISDIRECTED_REQUEST);
}

#[test]
fn reported_statuses_move_a_withdrawal() {
    let hash = || Some("0xabc".to_string());
    match read_withdrawal_move("approved", hash(), None).unwrap() {
        WithdrawalMove::Advance { from, to, tx_hash } => {
            assert_eq!((from, to, tx_hash), ("pending", "approved", None));
        }
        _ => panic!("approved advances"),
    }
    match read_withdrawal_move("broadcast", hash(), None).unwrap() {
        WithdrawalMove::Advance { from, to, tx_hash } => {
            assert_eq!((from, to, tx_hash), ("approved", "broadcast", hash()));
        }
        _ => panic!("broadcast advances"),
    }
    let confirmed = read_withdrawal_move("confirmed", hash(), None).unwrap();
    assert!(confirmed.moves_funds());
    match read_withdrawal_move("failed", None, None).unwrap() {
        WithdrawalMove::Fail { reason } => assert_eq!(reason, "chain send failed"),
        _ => panic!("failed fails"),
    }
    assert_eq!(
        read_withdrawal_move("lost", None, None).unwrap_err().message,
        "unknown status 'lost'"
    );
}

fn engine_with_long() -> RiskEngine {
    let mut engine = RiskEngine::new();
    engine.initialize_account(7, 55_000_000_000);
    engine.check_and_reserve_margin(7, 50_000_000_000).unwrap();
    engine.on_fill(7, BTC, 0, 5_000_000, 100_000, 50_000_000_000, 1_000_000, 10, 50, 0);
    engine
}

#[test]
fn a_position_is_closed_through_the_mark() {
    let engine = engine_with_long();
    let position = engine.position(7, &BTC);
    let close = plan_force_close(position, true, Some(5_000_000)).unwrap();
    assert_eq!(close.side, 1);
    assert_eq!(close.price_ticks, 4_750_000);
    assert_eq!(close.qty_lots, 100_000);
    assert!(close.reduce_only);
    assert_eq!(plan_force_close(None, true, Some(1)).unwrap_err().status, NOT_FOUND);
    assert_eq!(plan_force_close(position, false, Some(1)).unwrap_err().message, "no command queue");
    assert_eq!(plan_force_close(position, true, None).unwrap_err().message, "no mark price");
    assert_eq!(plan_force_close(position, true, Some(0)).unwrap_err().message, "no mark price");
}

#[test]
fn a_forced_mark_liquidates_what_it_ruins() {
    let mut engine = engine_with_long();
    let events = force_mark(&mut engine, BTC, 4_470_000, 1_000_000).unwrap();
    assert_eq!(events.len(), 1);
    assert_eq!(events[0].liq_price_ticks, 4_502_500);
    assert_eq!(engine.account(7).unwrap().status, RiskStatus::LiquidationPending);
    let rules = SymbolRules::for_symbol("BTC_USDT");
    let plan = plan_liquidation(&events[0], 5_000, Some(4_470_000), &rules).unwrap();
    assert_eq!(plan.order_type, "liq-sell");
    assert_eq!(plan.order.side, 1);
    assert_eq!(plan.order.qty_lots, 50_000);
    assert_eq!(plan.order.price_ticks, 4_502_500);
    assert_eq!(plan.margin_atoms, 22_350_000_000);

    let unpriced = LiquidationEvent {
        user_id: 7,
        symbol: BTC,
        side: PositionSide::Short,
        qty_lots: 10,
        liq_price_ticks: 0,
    };
    assert!(plan_liquidation(&unpriced, 10_000, None, &rules).is_none());
    assert!(force_mark(&mut engine_with_long(), BTC, i64::MAX, 1_000_000).is_none());
}

#[test]
fn triggers_are_taken_on_the_grid() {
    let req = |side: &str, kind: &str, trigger: &str, price: Option<&str>, when: Option<&str>| {
        PlaceTriggerRequest {
            symbol: "BTC_USDT".to_string(),
            side: side.to_string(),
            order_type: kind.to_string(),
            trigger_price: Some(amount(trigger)),
            price: price.map(|p| Some(amount(p))),
            quantity: Some(amount("0.001")),
            trigger_when: when.map(|w| w.to_string()),
        }
    };
    let (when, t) = plan_trigger(3, 7, &req("sell", "market", "45000", None, None)).unwrap();
    assert_eq!(when, TriggerWhen::Falling);
    assert_eq!((t.id, t.user_id, t.side, t.is_market), (3, 7, 1, true));
    assert_eq!((t.trigger_price_ticks, t.price_ticks, t.qty_lots), (4_500_000, None, 1_000));
    let (when, t) =
        plan_trigger(3, 7, &req("buy", "limit", "45000", Some("45001"), Some("falling"))).unwrap();
    assert_eq!(when, TriggerWhen::Falling);
    assert_eq!(t.price_ticks, Some(4_500_100));

    let refused = |r: PlaceTriggerRequest| plan_trigger(3, 7, &r).unwrap_err().message;
    assert_eq!(refused(req("hold", "market", "1", None, None)), "side must be buy|sell");
    assert_eq!(refused(req("buy", "stop", "1", None, None)), "order_type must be limit|market");
    assert_eq!(refused(req("buy", "market", "1.001", None, None)), "trigger_price off tick");
    assert_eq!(refused(req("buy", "limit", "1", None, None)), "limit trigger requires price");
    assert_eq!(refused(req("buy", "limit", "1", Some("1.001"), None)), "price off tick");
    assert_eq!(
        refused(req("buy", "market", "1", None, Some("up"))),
        "trigger_when must be rising|falling"
    );
    let mut off_step = req("buy", "market", "1", None, None);
    off_step.quantity = None;
    assert_eq!(refused(off_step), "quantity off step");
}

#[test]
fn accounts_are_warmed_from_their_rows() {
    let rows = vec![
        ("BTC".to_string(), AccountBalance::from_atoms(5, 1)),
        ("USDT".to_string(), AccountBalance::from_atoms(900, 100)),
    ];
    assert_eq!(opening_equity(&rows), 900);
    let mut cache = AccountCache::new();
    let mut engine = RiskEngine::new();
    warm_account_cache_for(&mut cache, &mut engine, 7, &rows);
    assert_eq!(cache.get(7, "USDT"), Some(AccountBalance::from_atoms(900, 100)));
    assert_eq!(cache.get(7, "BTC"), Some(AccountBalance::from_atoms(5, 1)));
    assert_eq!(engine.account(7).unwrap().equity, 900);
    warm_account_cache_for(&mut cache, &mut engine, 8, &Vec::new());
    assert!(engine.account(8).is_none());
}

#[test]
fn small_rules_of_the_interface() {
    assert_eq!(client_address(Some("1.2.3.4, 5.6.7.8")), Some("1.2.3.4".to_string()));
    assert_eq!(client_address(Some(" 1.2.3.4 ")), Some("1.2.3.4".to_string()));
    assert_eq!(client_address(None), None);
    assert_eq!(registration_status("duplicate key value"), CONFLICT);
    assert_eq!(registration_status("violates unique constraint"), CONFLICT);
    assert_eq!(registration_status("pool closed"), BAD_REQUEST);
    assert_eq!(identity_name("  Ada ").unwrap(), "Ada");
    assert_eq!(identity_name("  ").unwrap_err().message, "full_name required");
    assert!(check_robot(ROBOT_EMAIL).is_ok());
    assert_eq!(check_robot("a@b.c").unwrap_err().status, FORBIDDEN);
    assert!(check_test_funds(None).is_ok());
    assert!(check_test_funds(Some(9_999_999_999)).is_ok());
    assert_eq!(check_test_funds(Some(10_000_000_000)).unwrap_err().status, BAD_REQUEST);
    assert_eq!(test_grants()[0], ("USDT", 1_000_000_000_000));
    assert_eq!(robot_floors()[1], ("BTC", 1_000_000_000_000));
    assert_eq!(demo_floors()[3], ("SOL", 100_000_000_000));
}

#[test]
fn a_password_is_changed_by_its_holder_alone() {
    let stored = hash_password("old password").unwrap();
    let hash = change_password("old password", "new password", Some(&stored)).unwrap();
    assert_ne!(hash, stored);
    assert!(change_password("new password", "newer password", Some(&hash)).is_ok());
    let refusal = change_password("guess", "new password", Some(&stored)).unwrap_err();
    assert_eq!(refusal.message, "Current password is incorrect");
    assert_eq!(change_password("x", "new password", None).unwrap_err().status, NOT_FOUND);
    assert_eq!(change_password("x", "short", None).unwrap_err().status, BAD_REQUEST);
    assert!(check_new_password("12345678").is_ok());
}

#[test]
fn the_demo_book_has_both_sides_of_three_markets() {
    let plans = seed_plans();
    assert_eq!(plans.len(), 6);
    let buy = seed_order(&plans[0], 2).unwrap();
    assert_eq!(buy.price, amount("2970"));
    assert_eq!(buy.freeze_asset, "USDT");
    assert_eq!(buy.freeze_amount, amount("1485"));
    let sell = seed_order(&plans[5], 4).unwrap();
    assert_eq!(sell.price, amount("51600"));
    assert_eq!(sell.freeze_asset, "BTC");
    assert_eq!(sell.freeze_amount, amount("0.1"));
    assert_eq!(sell.freeze_price, AmountAtoms::zero());
}
