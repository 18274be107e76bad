use desk::order::{OrderStatus, UPDATE_ACCEPTED, UPDATE_CANCELLED, UPDATE_FILLED, UPDATE_PARTIAL_FILL};
use desk::order_state::{
    db_status_from_engine, db_status_from_update_kind, maker_ws_status_from_db_status,
    ws_status_from_engine, ws_status_from_update_kind, DbOrderStatus, WsOrderStatus,
};

#[test]
fn maps_aeron_update_kind_to_db_and_ws_status() {
    assert_eq!(db_status_from_update_kind(UPDATE_ACCEPTED), DbOrderStatus::Pending);
    assert_eq!(db_status_from_update_kind(UPDATE_PARTIAL_FILL), DbOrderStatus::Trading);
    assert_eq!(ws_status_from_update_kind(UPDATE_PARTIAL_FILL).as_str(), "PARTIAL");
    assert_eq!(ws_status_from_update_kind(UPDATE_CANCELLED), WsOrderStatus::Canceled);
}

#[test]
fn maps_engine_status_to_db_and_ws_status() {
    assert_eq!(db_status_from_engine(OrderStatus::Filled), DbOrderStatus::Completed);
    assert_eq!(
        ws_status_from_engine(OrderStatus::Cancelled, true),
        WsOrderStatus::PartialFill
    );
    assert_eq!(ws_status_from_engine(OrderStatus::Cancelled, false), WsOrderStatus::Canceled);
}

#[test]
fn every_kind_of_update_has_a_status() {
    assert_eq!(db_status_from_update_kind(UPDATE_FILLED), DbOrderStatus::Completed);
    assert_eq!(ws_status_from_update_kind(UPDATE_FILLED), WsOrderStatus::Filled);
    assert_eq!(ws_status_from_update_kind(UPDATE_ACCEPTED), WsOrderStatus::Open);
    assert_eq!(db_status_from_update_kind(UPDATE_CANCELLED).as_str(), "CANCELED");
    assert_eq!(db_status_from_update_kind(250), DbOrderStatus::Rejected);
    assert_eq!(ws_status_from_update_kind(250), WsOrderStatus::Rejected);
}

#[test]
fn stored_statuses_have_names_and_bytes() {
    let all = [
        (DbOrderStatus::Pending, "PENDING", 0),
        (DbOrderStatus::Trading, "TRADING", 1),
        (DbOrderStatus::Completed, "COMPLETED", 2),
        (DbOrderStatus::Canceled, "CANCELED", 3),
        (DbOrderStatus::Rejected, "REJECTED", 4),
    ];
    for (status, name, byte) in all {
        assert_eq!(status.as_str(), name);
        assert_eq!(status.as_u8(), byte);
    }
}

#[test]
fn makers_see_filled_or_partial() {
    assert_eq!(maker_ws_status_from_db_status("COMPLETED"), WsOrderStatus::Filled);
    assert_eq!(maker_ws_status_from_db_status("TRADING"), WsOrderStatus::PartialFill);
    assert_eq!(db_status_from_engine(OrderStatus::Accepted), DbOrderStatus::Pending);
    assert_eq!(db_status_from_engine(OrderStatus::PartiallyFilled), DbOrderStatus::Trading);
    assert_eq!(db_status_from_engine(OrderStatus::Rejected), DbOrderStatus::Rejected);
}
