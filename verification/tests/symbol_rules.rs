use desk::money::AmountAtoms;
use desk::order::{Side, TimeInForce};
use desk::symbol_rules::{
    normalize_order_shape, validate_order_shape, validate_symbol, FixedOrderInput, SymbolRules,
};

fn amount(text: &str) -> AmountAtoms {
    AmountAtoms::from_decimal_str(text).unwrap()
}

#[test]
fn atoms_twins_match_float_rules_for_all_symbols() {
    for (sym, price_tick, quantity_step) in [
        ("BTC_USDT", 0.01f64, 0.000001f64),
        ("ETH_USDT", 0.01, 0.0001),
        ("SOL_USDT", 0.001, 0.001),
        ("OTHER", 0.01, 0.000001),
    ] {
        let r = SymbolRules::for_symbol(sym);
        assert_eq!(
            (price_tick * 1e8).round() as i64,
            r.price_tick_atoms,
            "price tick mismatch for {sym}"
        );
        assert_eq!(
            (quantity_step * 1e8).round() as i64,
            r.quantity_step_atoms,
            "quantity step mismatch for {sym}"
        );
    }
}

#[test]
fn integer_conversions_are_exact_and_roundtrip() {
    let r = SymbolRules::for_symbol("BTC_USDT");

    let price = amount("75893.61");
    let ticks = r.price_atoms_to_ticks(price).unwrap();
    assert_eq!(ticks, 7_589_361);
    assert_eq!(r.ticks_to_price_atoms(ticks).unwrap(), price);

    let qty = amount("0.001234");
    let lots = r.quantity_atoms_to_lots(qty).unwrap();
    assert_eq!(lots, 1234);
    assert_eq!(r.lots_to_quantity_atoms(lots).unwrap(), qty);

    let off_tick = amount("75893.611");
    assert_eq!(r.price_atoms_to_ticks(off_tick).unwrap_err(), "price does not match tick size");
    let off_step = amount("0.0012345");
    assert_eq!(r.quantity_atoms_to_lots(off_step).unwrap_err(), "quantity does not match lot size");

    assert!(r.price_atoms_to_ticks(AmountAtoms::zero()).is_err());
    assert!(r.ticks_to_price_atoms(i64::MAX).is_err());
}

#[test]
fn symbol_validation_rejects_overlong_and_junk_input() {
    assert!(validate_symbol("ABCDEFGH_ABCDEFG").is_ok());
    assert_eq!(validate_symbol("ABCDEFGH_ABCDEFGH").unwrap_err(), "symbol too long");
    assert!(validate_symbol("BTC_USDT").is_ok());
    assert!(validate_symbol("1000SHIB_USDT").is_ok());
    assert_eq!(validate_symbol("").unwrap_err(), "symbol must not be empty");
    for bad in ["btc_usdt", "BTC-USDT", "BTC USDT", "BTC\0USDT", "BTC.USDT"] {
        assert_eq!(
            validate_symbol(bad).unwrap_err(),
            "symbol has invalid characters",
            "must reject {bad:?}"
        );
    }
}

#[test]
fn order_shape_rejects_invalid_symbol_at_entry() {
    assert_eq!(
        normalize_order_shape("ABCDEFGH_ABCDEFGH", "limit", Some(amount("100")), amount("1"))
            .unwrap_err(),
        "symbol too long"
    );
    assert_eq!(
        validate_order_shape("btc_usdt", "market", None, amount("1")).unwrap_err(),
        "symbol has invalid characters"
    );
}

#[test]
fn normalizes_btc_limit_to_ticks_and_lots() {
    let shape =
        normalize_order_shape("BTC_USDT", "limit", Some(amount("75893.60")), amount("0.000123"))
            .expect("valid fixed shape");
    assert_eq!(shape.price_ticks, Some(7_589_360));
    assert_eq!(shape.quantity_lots, 123);
}

#[test]
fn rejects_misaligned_price_and_quantity() {
    assert_eq!(
        normalize_order_shape("BTC_USDT", "limit", Some(amount("100.001")), amount("0.000123"))
            .unwrap_err(),
        "price does not match tick size"
    );
    assert_eq!(
        normalize_order_shape("ETH_USDT", "limit", Some(amount("100.01")), amount("0.00001"))
            .unwrap_err(),
        "quantity does not match lot size"
    );
}

#[test]
fn market_order_has_no_price_ticks() {
    let shape = normalize_order_shape("ETH_USDT", "market", None, amount("0.001")).unwrap();
    assert_eq!(shape.price_ticks, None);
    assert_eq!(shape.quantity_lots, 10);
}

#[test]
fn fixed_order_input_keeps_integer_shape() {
    let fixed = FixedOrderInput::from_order_fields(
        9,
        "BTC_USDT",
        Side::Buy,
        "limit",
        Some(amount("75893.60")),
        amount("0.000123"),
        TimeInForce::GTC,
        12345,
    )
    .unwrap();
    assert_eq!(fixed.price_ticks, 7_589_360);
    assert_eq!(fixed.quantity_lots, 123);
    assert!(!fixed.is_market);
}

#[test]
fn fixed_market_order_keeps_integer_shape() {
    let fixed = FixedOrderInput::from_order_fields(
        10,
        "ETH_USDT",
        Side::Sell,
        "market",
        None,
        amount("0.001"),
        TimeInForce::IOC,
        12346,
    )
    .unwrap();
    assert_eq!(fixed.price_ticks, 0);
    assert_eq!(fixed.quantity_lots, 10);
    assert!(fixed.is_market);
}
