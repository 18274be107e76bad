use desk::exchange_config::{ControlChange, ExchangeConfig, SymbolControl};

#[test]
fn halt_and_fee_override_fall_through() {
    let mut cfg = ExchangeConfig::new();
    // Unknown symbol: not halted, default fees.
    assert!(!cfg.is_halted("BTC_USDT"));
    let (m, t) = cfg.fee_bps("BTC_USDT", (2, 5));
    assert!(m >= 0 && t > 0);

    // Halt + override taker only; maker still falls through.
    cfg.set(
        "BTC_USDT",
        SymbolControl { trading_halted: true, maker_fee_bps: None, taker_fee_bps: Some(20) },
    );
    assert!(cfg.is_halted("BTC_USDT"));
    let (m2, t2) = cfg.fee_bps("BTC_USDT", (2, 5));
    assert_eq!(m2, m, "maker falls through to default");
    assert_eq!(t2, 20, "taker uses the override");

    // Resume.
    cfg.set("BTC_USDT", SymbolControl::default());
    assert!(!cfg.is_halted("BTC_USDT"));
}

#[test]
fn controls_of_symbols_are_kept_apart() {
    let mut cfg = ExchangeConfig::new();
    let halted = SymbolControl { trading_halted: true, maker_fee_bps: Some(1), taker_fee_bps: None };
    cfg.set("BTC_USDT", halted);
    cfg.set("ETH_USDT", SymbolControl::default());
    assert!(cfg.is_halted("BTC_USDT"));
    assert!(!cfg.is_halted("ETH_USDT"));
    let mut all = cfg.all();
    all.sort_by(|a, b| a.0.cmp(&b.0));
    assert_eq!(all.len(), 2);
    assert_eq!(all[0].0, "BTC_USDT");
    assert!(all[0].1.trading_halted);
    assert_eq!(all[0].1.maker_fee_bps, Some(1));
    assert_eq!(all[1].0, "ETH_USDT");
}

#[test]
fn hydrate_takes_every_row_over() {
    let mut cfg = ExchangeConfig::new();
    let rows = vec![
        ("BTC_USDT".to_string(), SymbolControl::default()),
        (
            "SOL_USDT".to_string(),
            SymbolControl { trading_halted: true, maker_fee_bps: None, taker_fee_bps: Some(9) },
        ),
    ];
    assert_eq!(cfg.hydrate(&rows), 2);
    assert!(cfg.is_halted("SOL_USDT"));
    assert_eq!(cfg.fee_bps("SOL_USDT", (2, 5)).1, 9);
    assert_eq!(cfg.all().len(), 2);
}

#[test]
fn a_change_keeps_what_it_does_not_name() {
    let current =
        SymbolControl { trading_halted: true, maker_fee_bps: Some(3), taker_fee_bps: Some(7) };
    let change = ControlChange {
        trading_halted: None,
        maker_fee_bps: Some(4),
        taker_fee_bps: Some(8),
        clear_maker_fee: false,
        clear_taker_fee: true,
    };
    let next = change.apply(current);
    assert!(next.trading_halted);
    assert_eq!(next.maker_fee_bps, Some(4));
    assert_eq!(next.taker_fee_bps, None);
}
