use desk::ws_sbe::{
    decode_best_price, decode_broadcast_symbol, encode_depth, encode_ticker, encode_trade,
    DEPTH_HEADER_LEN, DEPTH_MSG, HEADER_LEN, TICKER_MSG, TRADE_MSG,
};

#[test]
fn a_frame_names_its_symbol() {
    let ticker = encode_ticker("BTC_USDT", 1, 2, 3, 4, 5);
    assert_eq!(ticker[0], TICKER_MSG);
    assert_eq!(ticker.len(), HEADER_LEN + 40);
    assert_eq!(decode_broadcast_symbol(&ticker), Some("BTC_USDT".to_string()));
    let trade = encode_trade(1, 2, 0, 9, "ETH_USDT");
    assert_eq!(trade[0], TRADE_MSG);
    assert_eq!(decode_broadcast_symbol(&trade), Some("ETH_USDT".to_string()));
    assert_eq!(decode_broadcast_symbol(&[DEPTH_MSG]), None);
    assert_eq!(decode_broadcast_symbol(&[]), None);
}

#[test]
fn the_best_prices_of_a_book_read_back() {
    let bids = vec![(100.5f64.to_bits(), 1f64.to_bits()), (99f64.to_bits(), 2f64.to_bits())];
    let asks = vec![(101f64.to_bits(), 3f64.to_bits())];
    let frame = encode_depth(77, "BTC_USDT", &bids, &asks);
    assert_eq!(frame[0], DEPTH_MSG);
    assert_eq!(frame.len(), DEPTH_HEADER_LEN + 3 * 16);
    assert_eq!(decode_best_price(&frame, false).map(f64::from_bits), Some(100.5));
    assert_eq!(decode_best_price(&frame, true).map(f64::from_bits), Some(101.0));
    let empty = encode_depth(77, "BTC_USDT", &Vec::new(), &Vec::new());
    assert_eq!(decode_best_price(&empty, false), None);
    assert_eq!(decode_best_price(&empty, true), None);
    assert_eq!(decode_best_price(&encode_ticker("BTC_USDT", 1, 2, 3, 4, 5), true), None);
}
