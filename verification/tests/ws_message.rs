use desk::ws_message::{
    assemble_message, find_json_key, json_i64_field, json_number_field, json_str_field,
    parse_place_order_fast, scan_message, ClientMsg, JsonValue, RawMessage, RawOrder,
};

#[test]
fn parse_place_order_fast_handles_pressure_shape() {
    let msg = ClientMsg::parse(
        r#"{"type":"place_order","client_order_id":"p7-11","symbol":"BTC_USDT","side":"buy","order_type":"limit","price":5000.0,"qty":0.001}"#,
    )
    .unwrap();
    match msg {
        ClientMsg::PlaceOrder(order) => {
            assert_eq!(order.client_order_id, "p7-11");
            assert_eq!(order.symbol, "BTC_USDT");
            assert_eq!(order.side, "buy");
            assert_eq!(order.order_type, "limit");
            assert_eq!(order.price.unwrap().parse::<f64>(), Ok(5000.0));
            assert_eq!(order.qty.parse::<f64>(), Ok(0.001));
        }
        _ => panic!("expected place_order"),
    }
}

#[test]
fn parse_cancel_order_fast_handles_pressure_shape() {
    let msg = ClientMsg::parse(r#"{"type":"cancel_order","order_id":12345}"#).unwrap();
    match msg {
        ClientMsg::CancelOrder { order_id } => assert_eq!(order_id, 12345),
        _ => panic!("expected cancel_order"),
    }
}

#[test]
fn fields_are_scanned_without_a_parser() {
    let message = r#"{"type":"auth","n": -12,"price": 10.50,"token":"t"}"#;
    assert_eq!(json_str_field(message, "type"), Some("auth".to_string()));
    assert_eq!(json_str_field(message, "token"), Some("t".to_string()));
    assert_eq!(json_i64_field(message, "n"), Some(-12));
    assert_eq!(json_number_field(message, "price"), Some("10.50".to_string()));
    assert_eq!(json_str_field(message, "absent"), None);
    assert_eq!(json_i64_field(message, "token"), None);
    assert!(find_json_key(message, "price").is_some());
    assert!(find_json_key(message, "absent").is_none());
}

#[test]
fn every_message_is_read() {
    let auth = ClientMsg::parse(r#"{"type":"auth","token":"t-1"}"#).unwrap();
    assert!(matches!(auth, ClientMsg::Auth { token } if token == "t-1"));
    let key = ClientMsg::parse(r#"{"type":"auth_key","api_key":"k-1"}"#).unwrap();
    assert!(matches!(key, ClientMsg::ApiKeyAuth { api_key } if api_key == "k-1"));
    let sub = ClientMsg::parse(r#"{"type":"subscribe","channels":["depth.BTC_USDT","x"]}"#).unwrap();
    assert!(matches!(sub, ClientMsg::Subscribe { channels } if channels == ["depth.BTC_USDT", "x"]));
    let unsub = ClientMsg::parse(r#"{"type":"unsubscribe","channels":["x"]}"#).unwrap();
    assert!(matches!(unsub, ClientMsg::Unsubscribe { channels } if channels == ["x"]));
    let cancel = ClientMsg::parse(r#"{"type":"batch_cancel","order_ids":[1,2]}"#).unwrap();
    assert!(matches!(cancel, ClientMsg::BatchCancel { order_ids } if order_ids == [1, 2]));
    let symbol = ClientMsg::parse(r#"{"type":"cancel_symbol","symbol":"BTC_USDT"}"#).unwrap();
    assert!(matches!(symbol, ClientMsg::CancelSymbol { symbol } if symbol == "BTC_USDT"));
    assert!(matches!(ClientMsg::parse(r#"{"type":"cancel_all"}"#), Some(ClientMsg::CancelAll)));
    assert!(matches!(ClientMsg::parse(r#"{"type":"ping"}"#), Some(ClientMsg::Ping)));
    assert!(ClientMsg::parse(r#"{"type":"dance"}"#).is_none());
    assert!(ClientMsg::parse("not json").is_none());
}

#[test]
fn a_batch_keeps_the_place_of_an_unreadable_order() {
    let msg = ClientMsg::parse(
        r#"{"type":"place_orders","batch_id":"b","orders":[{"symbol":"BTC_USDT","side":"buy","order_type":"limit","price":5,"qty":1},{"symbol":"BTC_USDT"}]}"#,
    )
    .unwrap();
    match msg {
        ClientMsg::PlaceOrders { batch_id, orders } => {
            assert_eq!(batch_id, "b");
            assert_eq!(orders.len(), 2);
            assert_eq!(orders[0].as_ref().unwrap().symbol, "BTC_USDT");
            assert!(orders[1].is_none());
        }
        _ => panic!("expected place_orders"),
    }
}

fn raw_order() -> RawOrder {
    let text = |t: &str| Some(JsonValue::Text(t.to_string()));
    RawOrder {
        client_order_id: text("c-1"),
        symbol: text("BTC_USDT"),
        side: text("sell"),
        order_type: text("market"),
        time_in_force: None,
        price: None,
        qty: Some(JsonValue::Number { written: "2".to_string(), integer: Some(2) }),
        quantity: None,
    }
}

#[test]
fn a_message_is_assembled_from_its_fields() {
    let raw = RawMessage {
        kind: Some(JsonValue::Text("place_order".to_string())),
        token: None,
        api_key: None,
        batch_id: None,
        order_id: None,
        order: raw_order(),
        channels: None,
        order_ids: None,
        orders: None,
    };
    match assemble_message(&raw) {
        Some(ClientMsg::PlaceOrder(order)) => {
            assert_eq!(order.side, "sell");
            assert_eq!(order.price, None);
            assert_eq!(order.qty, "2");
        }
        _ => panic!("expected place_order"),
    }
}

#[test]
fn the_scan_reads_what_it_can_and_leaves_the_rest() {
    let order = parse_place_order_fast(
        r#"{"type":"place_order","client_order_id":"c","symbol":"BTC_USDT","side":"buy","order_type":"limit","price":1.5,"qty":2}"#,
    )
    .unwrap();
    assert_eq!(order.price.as_deref(), Some("1.5"));
    assert_eq!(order.qty, "2");
    assert!(parse_place_order_fast(r#"{"type":"place_order","side":"buy"}"#).is_none());
    assert!(matches!(
        scan_message(r#"{"type":"cancel_order","order_id":7}"#),
        Some(ClientMsg::CancelOrder { order_id: 7 })
    ));
    assert!(scan_message(r#"{"type":"subscribe","channels":["x"]}"#).is_none());
}
