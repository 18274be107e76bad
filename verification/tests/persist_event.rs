use desk::persist_event::{
    pack_str, unpack_str, InsuranceFundSetPayload, PersistBody, PersistFrame, PersistKind,
};

#[test]
fn packed_names_read_back() {
    assert_eq!(&pack_str("BTC_USDT")[..9], b"BTC_USDT\0");
    assert_eq!(unpack_str(&pack_str("BTC_USDT")), "BTC_USDT");
    assert_eq!(unpack_str(&pack_str("")), "");
    assert_eq!(unpack_str(&pack_str("ABCDEFGH_ABCDEFG")), "ABCDEFGH_ABCDEFG");
}

#[test]
fn longer_names_are_cut_to_the_field() {
    assert_eq!(unpack_str(&pack_str("ABCDEFGH_ABCDEFGH")), "ABCDEFGH_ABCDEFG");
}

#[test]
fn frames_know_their_kind() {
    let fund = PersistBody::InsuranceFundSet(InsuranceFundSetPayload { balance_atoms: 3 });
    let frame = PersistFrame::of(fund);
    assert_eq!(frame.kind(), Some(PersistKind::InsuranceFundSet));
    assert_eq!(frame.seq, 0);
    let unknown = PersistFrame { publisher_id: 1, seq: 2, body: PersistBody::Unknown(77) };
    assert_eq!(unknown.kind(), None);
    let broken = PersistBody::Unreadable(PersistKind::TradeInsert);
    assert_eq!(PersistFrame::of(broken).kind(), Some(PersistKind::TradeInsert));
}
