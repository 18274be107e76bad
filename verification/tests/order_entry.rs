use desk::money::{AccountBalance, AmountAtoms};
use desk::order::{OrderStatus, Side, TimeInForce};
use desk::order_entry::{
    average_fill_price, compute_backing_price, compute_closed_quantity, compute_release,
    compute_remaining, compute_units, decide_outcome, parse_combined_tif, parse_order_type,
    parse_side, plan_fill, reserve, split_assets, split_assets_or_default, AccountCache,
    EngineFill, Outcome, ReserveError,
};
use desk::symbol_rules::SymbolRules;

fn amount(text: &str) -> AmountAtoms {
    AmountAtoms::from_decimal_str(text).unwrap()
}

#[test]
fn sides_and_types_are_read() {
    assert_eq!(parse_side("buy"), Some(Side::Buy));
    assert_eq!(parse_side("sell"), Some(Side::Sell));
    assert_eq!(parse_side("BUY"), None);
    assert_eq!(parse_order_type("limit"), Some(TimeInForce::GTC));
    assert_eq!(parse_order_type("market"), Some(TimeInForce::IOC));
    assert_eq!(parse_order_type("fok"), Some(TimeInForce::FOK));
    assert_eq!(parse_order_type("post_only"), Some(TimeInForce::PostOnly));
    assert_eq!(parse_order_type("iceberg"), None);
    assert_eq!(parse_combined_tif("limit", Some("fok")), Some(TimeInForce::FOK));
    assert_eq!(parse_combined_tif("limit", Some("whatever")), Some(TimeInForce::GTC));
    assert_eq!(parse_combined_tif("market", Some("fok")), Some(TimeInForce::IOC));
}

#[test]
fn symbols_name_their_assets() {
    assert_eq!(split_assets("BTC_USDT"), ("BTC".to_string(), "USDT".to_string()));
    assert_eq!(split_assets_or_default("BTC_USDT"), ("BTC".to_string(), "USDT".to_string()));
}

#[test]
fn a_reservation_is_cost_or_quantity() {
    let price = Some(amount("50000"));
    assert_eq!(compute_backing_price(Side::Buy, price, None), amount("50000"));
    assert_eq!(compute_backing_price(Side::Sell, price, None), AmountAtoms::zero());
    assert_eq!(
        reserve(Side::Buy, amount("50000"), amount("0.1"), "BTC", "USDT"),
        Ok(("USDT".to_string(), amount("5000")))
    );
    assert_eq!(
        reserve(Side::Sell, AmountAtoms::zero(), amount("0.1"), "BTC", "USDT"),
        Ok(("BTC".to_string(), amount("0.1")))
    );
    assert_eq!(
        reserve(Side::Buy, AmountAtoms::zero(), amount("0.1"), "BTC", "USDT"),
        Err(ReserveError::NoPrice)
    );
    let most = AmountAtoms::from_atoms(i64::MAX);
    assert_eq!(reserve(Side::Buy, most, most, "BTC", "USDT"), Err(ReserveError::TooLarge));
}

#[test]
fn a_market_buy_is_backed_by_the_best_price() {
    let backing = compute_backing_price(Side::Buy, None, Some(amount("100")));
    assert!(backing >= amount("100"));
    assert_eq!(compute_backing_price(Side::Buy, None, None), AmountAtoms::zero());
}

#[test]
fn the_unfilled_part_is_given_back() {
    let remaining = compute_remaining(amount("0.1"), amount("0.04"));
    assert_eq!(remaining, amount("0.06"));
    assert_eq!(
        compute_release(Side::Buy, amount("50000"), remaining, "BTC", "USDT"),
        Some(("USDT".to_string(), amount("3000")))
    );
    assert_eq!(
        compute_release(Side::Sell, AmountAtoms::zero(), remaining, "BTC", "USDT"),
        Some(("BTC".to_string(), amount("0.06")))
    );
}

#[test]
fn a_fill_names_its_parties_and_returns_the_price_gain() {
    let rules = SymbolRules::for_symbol("BTC_USDT");
    let plan = plan_fill(
        Side::Buy,
        1,
        10,
        20,
        Some(2),
        Some(amount("50000")),
        &rules,
        4_900_000,
        100_000,
    )
    .unwrap();
    assert_eq!(plan.price, amount("49000"));
    assert_eq!(plan.quantity, amount("0.1"));
    assert_eq!((plan.buyer_id, plan.seller_id), (1, 2));
    assert_eq!((plan.buy_order_id, plan.sell_order_id), (10, 20));
    assert!(plan.settles);
    assert_eq!(plan.over_release, amount("100"));
    assert_eq!(compute_units(7, rules.price_tick_atoms), amount("0.07"));
}

#[test]
fn the_average_price_weighs_by_quantity() {
    let rules = SymbolRules::for_symbol("BTC_USDT");
    let fills = vec![
        EngineFill { maker_order_id: 1, price_ticks: 5_000_000, quantity_lots: 100_000 },
        EngineFill { maker_order_id: 2, price_ticks: 5_100_000, quantity_lots: 100_000 },
    ];
    assert_eq!(average_fill_price(&fills, &rules, amount("0.2")), Some(amount("50500")));
    assert_eq!(average_fill_price(&Vec::new(), &rules, AmountAtoms::zero()), None);
}

#[test]
fn outcomes_release_what_closes() {
    let whole = amount("1");
    assert!(matches!(decide_outcome(OrderStatus::Rejected, whole, amount("0")), Outcome::Rejected));
    assert!(matches!(
        decide_outcome(OrderStatus::Filled, whole, whole),
        Outcome::Filled { released } if released == AmountAtoms::zero()
    ));
    assert_eq!(compute_closed_quantity(OrderStatus::Rejected, whole, amount("0")), whole);
    assert_eq!(
        compute_closed_quantity(OrderStatus::Accepted, whole, amount("0.4")),
        AmountAtoms::zero()
    );
}

#[test]
fn a_freeze_in_the_cache_is_undone_by_its_release() {
    let mut cache = AccountCache::new();
    assert!(!cache.knows(7));
    assert!(!cache.try_freeze_cache(7, "USDT", AmountAtoms::from_atoms(1)));
    cache.cache_set_snapshot(7, "USDT", AccountBalance::from_atoms(100, 0));
    assert!(cache.knows(7));
    assert!(cache.try_freeze_cache(7, "USDT", AmountAtoms::from_atoms(60)));
    assert!(!cache.try_freeze_cache(7, "USDT", AmountAtoms::from_atoms(60)));
    assert_eq!(cache.get(7, "USDT"), Some(AccountBalance::from_atoms(100, 60)));
    cache.release_cache_frozen(7, "USDT", AmountAtoms::from_atoms(60));
    assert_eq!(cache.get(7, "USDT"), Some(AccountBalance::from_atoms(100, 0)));
    cache.forget(7);
    assert_eq!(cache.get(7, "USDT"), None);
}
