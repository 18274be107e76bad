use desk::read_actor::market_channel;
use desk::ws_sbe;

#[test]
fn market_channel_maps_broadcast_frames_to_subscription_names() {
    let f = |v: f64| v.to_bits();
    assert_eq!(
        market_channel(&ws_sbe::encode_ticker("BTC_USDT", f(1.0), f(0.0), f(1.0), f(1.0), f(10.0))),
        Some("ticker.BTC_USDT".to_string())
    );
    assert_eq!(
        market_channel(&ws_sbe::encode_depth(
            123,
            "ETH_USDT",
            &vec![(f(1.0), f(2.0))],
            &vec![(f(3.0), f(4.0))]
        )),
        Some("depth.ETH_USDT".to_string())
    );
    assert_eq!(
        market_channel(&ws_sbe::encode_trade(f(1.0), f(2.0), 0, 123, "SOL_USDT")),
        Some("trades.SOL_USDT".to_string())
    );
    assert_eq!(market_channel(&[0]), None);
}

#[test]
fn frames_without_a_channel_have_none() {
    assert_eq!(market_channel(&[]), None);
    assert_eq!(market_channel(&[ws_sbe::DEPTH_MSG; 16]), None, "shorter than its header");
    let mut frame = ws_sbe::encode_trade(0, 0, 0, 0, "SOL_USDT");
    frame[0] = 99;
    assert_eq!(market_channel(&frame), None, "unknown kind");
    frame[0] = ws_sbe::KLINE_MSG;
    assert_eq!(market_channel(&frame), Some("kline.SOL_USDT".to_string()));
    frame[0] = ws_sbe::AGG_TRADE_MSG;
    assert_eq!(market_channel(&frame), Some("agg_trades.SOL_USDT".to_string()));
    frame[1] = 0xff;
    assert_eq!(market_channel(&frame), None, "the symbol is no text");
}

#[test]
fn best_prices_read_back() {
    let f = |v: f64| v.to_bits();
    let bids = vec![(f(10.0), f(1.0)), (f(9.0), f(2.0))];
    let asks = vec![(f(11.5), f(3.0))];
    let frame = ws_sbe::encode_depth(7, "BTC_USDT", &bids, &asks);
    assert_eq!(ws_sbe::decode_best_price(&frame, false), Some(f(10.0)));
    assert_eq!(ws_sbe::decode_best_price(&frame, true), Some(f(11.5)));
    assert_eq!(ws_sbe::decode_broadcast_symbol(&frame), Some("BTC_USDT".to_string()));
    let empty = ws_sbe::encode_depth(7, "BTC_USDT", &Vec::new(), &asks);
    assert_eq!(ws_sbe::decode_best_price(&empty, false), None);
    assert_eq!(ws_sbe::decode_best_price(&empty, true), Some(f(11.5)));
    assert_eq!(ws_sbe::decode_best_price(&frame[..40], true), None, "cut off");
    assert_eq!(ws_sbe::decode_best_price(&ws_sbe::encode_trade(0, 0, 0, 0, "X"), true), None);
}
