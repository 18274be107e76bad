use desk::money::AmountAtoms;
use desk::order::{OrderStatus, Side};
use desk::order_entry::EngineFill;
use desk::order_flow::{plan_fills, plan_match, Interface, MatchResult, MatchedOrder};
use desk::order_state::{DbOrderStatus, WsOrderStatus};

fn amount(text: &str) -> AmountAtoms {
    AmountAtoms::from_decimal_str(text).unwrap()
}

fn order(side: Side, price: Option<&str>, quantity: &str) -> MatchedOrder {
    MatchedOrder {
        id: 70,
        user_id: 7,
        symbol: "BTC_USDT".to_string(),
        side,
        price: price.map(amount),
        quantity: amount(quantity),
        best: None,
        base: "BTC".to_string(),
        quote: "USDT".to_string(),
    }
}

// Ticks of 0.01 and lots of 0.000001.
fn fill(maker_order_id: u64, price_ticks: i64, quantity_lots: i64) -> EngineFill {
    EngineFill { maker_order_id, price_ticks, quantity_lots }
}

fn matched(status: OrderStatus, fills: Vec<EngineFill>) -> MatchResult {
    MatchResult { status, filled_lots: fills.iter().map(|f| f.quantity_lots).sum(), fills }
}

#[test]
fn a_closed_buy_uses_or_returns_all_that_it_set_aside() {
    // Sets aside 0.5 * 50,000 = 25,000 USDT.
    let o = order(Side::Buy, Some("50000"), "0.5");
    let result = matched(
        OrderStatus::Cancelled,
        vec![fill(11, 4_990_000, 100_000), fill(12, 5_000_000, 200_000)],
    );
    let plan = plan_match(&o, &result, &vec![Some(1), Some(2)], Interface::Socket);
    assert!(!plan.refused);
    assert_eq!(plan.status, DbOrderStatus::Canceled);
    assert_eq!(plan.filled, amount("0.3"));
    assert_eq!(plan.fills.len(), 2);
    assert_eq!(plan.fills[0].over_release, amount("10"));
    assert_eq!(plan.fills[1].over_release, amount("0"));
    assert_eq!((plan.fills[0].buyer_id, plan.fills[0].seller_id), (7, 1));
    assert_eq!((plan.fills[1].buy_order_id, plan.fills[1].sell_order_id), (70, 12));
    assert_eq!(plan.release, Some(("USDT".to_string(), amount("10000"))));
    let spent: i64 = plan
        .fills
        .iter()
        .map(|f| f.price.checked_mul_scaled(f.quantity).unwrap().atoms() + f.over_release.atoms())
        .sum();
    assert_eq!(spent + amount("10000").atoms(), amount("25000").atoms());
    // (4,990 + 10,000) / 0.3
    assert_eq!(plan.trade, Some(amount("49966.66666666")));
    assert_eq!(plan.told, Some((WsOrderStatus::PartialFill, amount("49966.66666666"))));
    assert!(plan.depth);
}

#[test]
fn an_open_order_keeps_what_backs_its_rest() {
    let o = order(Side::Sell, Some("50000"), "0.5");
    let result = matched(OrderStatus::PartiallyFilled, vec![fill(11, 5_000_000, 100_000)]);
    let plan = plan_match(&o, &result, &vec![Some(1)], Interface::Request);
    assert_eq!(plan.release, None);
    assert_eq!(plan.status, DbOrderStatus::Trading);
    assert_eq!((plan.fills[0].buyer_id, plan.fills[0].seller_id), (1, 7));
    assert_eq!(plan.told, Some((WsOrderStatus::PartialFill, amount("0"))));

    let resting = matched(OrderStatus::Accepted, Vec::new());
    let plan = plan_match(&o, &resting, &Vec::new(), Interface::Socket);
    assert_eq!(plan.release, None);
    assert_eq!(plan.trade, None);
    assert!(plan.depth);
    assert_eq!(plan.told, Some((WsOrderStatus::Open, amount("0"))));
}

#[test]
fn a_refused_order_gets_everything_back() {
    let o = order(Side::Buy, Some("50000"), "0.5");
    let result = matched(OrderStatus::Rejected, Vec::new());
    for via in [Interface::Request, Interface::Socket] {
        let plan = plan_match(&o, &result, &Vec::new(), via);
        assert!(plan.refused);
        assert!(!plan.depth);
        assert_eq!(plan.told, None);
        assert_eq!(plan.release, Some(("USDT".to_string(), amount("25000"))));
    }
}

#[test]
fn an_order_that_found_nothing_is_over() {
    let o = order(Side::Sell, None, "0.5");
    let result = matched(OrderStatus::Cancelled, Vec::new());
    let plan = plan_match(&o, &result, &Vec::new(), Interface::Socket);
    assert_eq!(plan.release, Some(("BTC".to_string(), amount("0.5"))));
    assert_eq!(plan.told, Some((WsOrderStatus::Canceled, amount("0"))));
    assert!(!plan.depth);
    let plan = plan_match(&o, &result, &Vec::new(), Interface::Request);
    assert_eq!(plan.release, Some(("BTC".to_string(), amount("0.5"))));
    assert!(plan.depth);
}

#[test]
fn a_market_buy_without_an_offer_goes_by_its_fills() {
    let o = order(Side::Buy, None, "0.5");
    let result = matched(OrderStatus::Cancelled, vec![fill(11, 4_000_000, 100_000)]);
    let plan = plan_match(&o, &result, &vec![Some(1)], Interface::Socket);
    assert_eq!(plan.release, Some(("USDT".to_string(), amount("16000"))));
    let plan = plan_match(&o, &result, &vec![Some(1)], Interface::Request);
    assert_eq!(plan.release, None);
}

#[test]
fn fills_against_nobody_move_no_funds() {
    let o = order(Side::Buy, Some("50000"), "0.5");
    let fills = vec![fill(11, 4_990_000, 100_000), fill(12, 0, 5), fill(13, 5_000_000, 1)];
    let plans = plan_fills(&o, &fills, &vec![None, Some(2)]);
    assert_eq!(plans.len(), 2);
    assert!(!plans[0].settles);
    assert_eq!(plans[0].over_release, amount("0"));
    assert_eq!(plans[1].sell_order_id, 13);
    assert!(!plans[1].settles);
}
