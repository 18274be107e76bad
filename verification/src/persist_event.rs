//! Frames on the persist stream. Money is carried in atoms; an amount that is
//! not representable in atoms is carried as `None`.
use crate::maps::Symbol;
use chrono::TimeZone;
use vstd::prelude::*;

verus! {

/// A short text in a fixed-width field, padded with zero bytes.
pub type Packed = [u8; 16];

/// `std::str::from_utf8` accepts exactly the byte sequences that are valid
/// UTF-8 and gives the text they encode; here the text is copied out.
#[verifier::external_body]
pub(crate) fn utf8_text(bytes: &[u8]) -> (r: Option<String>)
    ensures
        r is Some <==> vstd::utf8::valid_utf8(bytes@),
        r is Some ==> (r->0)@ == vstd::utf8::decode_utf8(bytes@),
{
    std::str::from_utf8(bytes).ok().map(|s| s.to_owned())
}

/// The first and the last millisecond that a calendar date of the `chrono`
/// crate can stand for: the years -262143 to 262142.
pub const MIN_DATE_MS: i64 = -8_334_601_228_800_000;

pub const MAX_DATE_MS: i64 = 8_210_266_876_799_999;

/// `chrono::TimeZone::timestamp_millis_opt` on `Utc` gives a date exactly for
/// the milliseconds within the years that the crate represents.
#[verifier::external_body]
pub(crate) fn is_date_ms(ms: i64) -> (r: bool)
    ensures
        r == (MIN_DATE_MS <= ms <= MAX_DATE_MS),
{
    chrono::Utc.timestamp_millis_opt(ms).single().is_some()
}

/// The first sixteen bytes of a text, padded with zero bytes.
pub open spec fn packed(s: Seq<char>) -> Seq<u8> {
    let bytes = vstd::utf8::encode_utf8(s);
    Seq::new(
        16,
        |i: int|
            if i < bytes.len() {
                bytes[i]
            } else {
                0
            },
    )
}

/// The bytes before the first zero byte.
pub open spec fn before_zero(bytes: Seq<u8>) -> Seq<u8>
    decreases bytes.len(),
{
    if bytes.len() == 0 || bytes[0] == 0 {
        seq![]
    } else {
        seq![bytes[0]] + before_zero(bytes.drop_first())
    }
}

/// The text of a field; nothing where its bytes are no text.
pub open spec fn unpacked(bytes: Seq<u8>) -> Seq<char> {
    let head = before_zero(bytes);
    if vstd::utf8::valid_utf8(head) {
        vstd::utf8::decode_utf8(head)
    } else {
        seq![]
    }
}

proof fn lemma_before_zero(bytes: Seq<u8>, n: int)
    requires
        0 <= n <= bytes.len(),
        forall|i: int| 0 <= i < n ==> #[trigger] bytes[i] != 0,
        n < bytes.len() ==> bytes[n] == 0,
    ensures
        before_zero(bytes) == bytes.take(n),
    decreases n,
{
    if n == 0 {
        assert(bytes.take(0) =~= seq![]);
    } else {
        let rest = bytes.drop_first();
        assert forall|i: int| 0 <= i < n - 1 implies #[trigger] rest[i] != 0 by {
            assert(rest[i] == bytes[i + 1]);
        }
        assert(bytes[0] != 0);
        lemma_before_zero(rest, n - 1);
        assert(bytes.take(n) =~= seq![bytes[0]] + rest.take(n - 1));
    }
}

/// Puts a text into a fixed-width field, cut after sixteen bytes.
pub fn pack_str(s: &str) -> (r: Packed)
    ensures
        r@ == packed(s@),
{
    let bytes = s.as_bytes();
    let mut out: [u8; 16] = [0u8; 16];
    let mut i: usize = 0;
    while i < 16 && i < bytes.len()
        invariant
            0 <= i <= 16,
            i <= bytes@.len(),
            bytes@ == vstd::utf8::encode_utf8(s@),
            forall|j: int| 0 <= j < i ==> #[trigger] out@[j] == bytes@[j],
            forall|j: int| i <= j < 16 ==> #[trigger] out@[j] == 0,
        decreases 16 - i,
    {
        out[i] = bytes[i];
        i = i + 1;
    }
    proof {
        assert(out@ =~= packed(s@));
    }
    out
}

/// The text of a fixed-width field.
pub fn unpack_str(field: &Packed) -> (r: String)
    ensures
        r@ == unpacked(field@),
{
    let mut n: usize = 0;
    while n < 16 && field[n] != 0
        invariant
            0 <= n <= 16,
            forall|i: int| 0 <= i < n ==> #[trigger] field@[i] != 0,
        decreases 16 - n,
    {
        n = n + 1;
    }
    proof {
        lemma_before_zero(field@, n as int);
    }
    let head = vstd::slice::slice_subrange(vstd::array::array_as_slice(field), 0, n);
    proof {
        assert(head@ =~= field@.take(n as int));
    }
    match utf8_text(head) {
        Some(text) => text,
        None => String::new(),
    }
}

/// A text of at most sixteen ASCII characters other than NUL comes back from
/// its field; in particular every valid symbol does, so that no two of them
/// share a field.
pub proof fn law_pack_round_trip(s: Seq<char>)
    requires
        s.len() <= 16,
        forall|i: int| 0 <= i < s.len() ==> 0 < (#[trigger] s[i]) as int && s[i] as int <= 0x7f,
    ensures
        unpacked(packed(s)) == s,
{
    assert(vstd::utf8::is_ascii_chars(s));
    vstd::utf8::is_ascii_chars_encode_utf8(s);
    let bytes = vstd::utf8::encode_utf8(s);
    let field = packed(s);
    assert forall|i: int| 0 <= i < bytes.len() implies #[trigger] field[i] != 0 by {
        assert(s[i] as u8 == bytes[i]);
    }
    lemma_before_zero(field, bytes.len() as int);
    assert(field.take(bytes.len() as int) =~= bytes);
    vstd::utf8::encode_utf8_valid_utf8(s);
    vstd::utf8::encode_utf8_decode_utf8(s);
}

/// A symbol that passes validation comes back from its field.
pub proof fn law_valid_symbols_are_not_cut(s: Seq<char>)
    requires
        crate::symbol_rules::symbol_fault(s) is Ok,
    ensures
        unpacked(packed(s)) == s,
{
    assert forall|i: int| 0 <= i < s.len() implies crate::symbol_rules::symbol_char(
        #[trigger] s[i],
    ) by {}
    assert forall|i: int| 0 <= i < s.len() implies 0 < (#[trigger] s[i]) as int && s[i] as int
        <= 0x7f by {
        assert(crate::symbol_rules::symbol_char(s[i]));
    }
    assert(vstd::utf8::is_ascii_chars(s));
    vstd::utf8::is_ascii_chars_encode_utf8(s);
    law_pack_round_trip(s);
}

#[derive(Debug, Clone, Copy, PartialEq, Eq)]
pub struct OrderUpsertPayload {
    pub id: i64,
    pub user_id: i64,
    pub symbol: Symbol,
    pub side: u8,
    pub status: u8,
    pub order_type: Packed,
    /// Zero for a market order.
    pub price_atoms: Option<i64>,
    pub qty_atoms: Option<i64>,
    pub filled_atoms: Option<i64>,
    pub freeze_price_atoms: Option<i64>,
    pub client_order_id: Packed,
    pub created_at_ms: i64,
}

#[derive(Debug, Clone, Copy, PartialEq, Eq)]
pub struct OrderDeletePayload {
    pub id: i64,
}

#[derive(Debug, Clone, Copy, PartialEq, Eq)]
pub struct OrderFillUpdatePayload {
    pub id: i64,
    pub filled_atoms: Option<i64>,
    pub status: u8,
}

#[derive(Debug, Clone, Copy, PartialEq, Eq)]
pub struct AccountSetPayload {
    pub user_id: i64,
    pub asset: Packed,
    pub balance_atoms: i64,
    pub frozen_atoms: i64,
    /// The balance of a publisher that does not fill in atoms, converted.
    pub legacy_balance_atoms: Option<i64>,
    pub legacy_frozen_atoms: Option<i64>,
}

#[derive(Debug, Clone, Copy, PartialEq, Eq)]
pub struct TradeInsertPayload {
    pub buy_order_id: i64,
    pub sell_order_id: i64,
    pub symbol: Symbol,
    pub price_atoms: Option<i64>,
    pub qty_atoms: Option<i64>,
    pub ts_ms: i64,
}

#[derive(Debug, Clone, Copy, PartialEq, Eq)]
pub struct MatchingEventPayload {
    pub sequence: u64,
    pub response_stream_id: i32,
    pub event_kind: u8,
    pub order_id: i64,
    pub client_order_id: i64,
    pub participant_id: i64,
    pub counterparty_order_id: i64,
    pub symbol: Symbol,
    pub price_ticks: i64,
    pub quantity_lots: i64,
    pub remaining_lots: i64,
    pub ts_ns: u64,
}

#[derive(Debug, Clone, Copy, PartialEq, Eq)]
pub struct PositionUpsertPayload {
    pub user_id: i64,
    pub symbol: Symbol,
    pub side: u8,
    pub leverage: u8,
    pub qty_lots: i64,
    pub entry_price_ticks: i64,
    pub used_margin_atoms: i64,
}

#[derive(Debug, Clone, Copy, PartialEq, Eq)]
pub struct PositionDeletePayload {
    pub user_id: i64,
    pub symbol: Symbol,
}

#[derive(Debug, Clone, Copy, PartialEq, Eq)]
pub struct RiskAccountSetPayload {
    pub user_id: i64,
    pub equity_atoms: i64,
    pub used_margin_atoms: i64,
    pub order_margin_atoms: i64,
    pub status: u8,
}

#[derive(Debug, Clone, Copy, PartialEq, Eq)]
pub struct InsuranceFundSetPayload {
    pub balance_atoms: i64,
}

#[derive(Debug, Clone, Copy, PartialEq, Eq, Structural)]
pub enum PersistKind {
    OrderUpsert,
    OrderDelete,
    OrderFillUpdate,
    AccountSet,
    TradeInsert,
    MatchingEvent,
    PositionUpsert,
    PositionDelete,
    RiskAccountSet,
    InsuranceFundSet,
}

/// What a frame carries.
#[derive(Debug, Clone, Copy, PartialEq, Eq)]
pub enum PersistBody {
    OrderUpsert(OrderUpsertPayload),
    OrderDelete(OrderDeletePayload),
    OrderFillUpdate(OrderFillUpdatePayload),
    AccountSet(AccountSetPayload),
    TradeInsert(TradeInsertPayload),
    MatchingEvent(MatchingEventPayload),
    PositionUpsert(PositionUpsertPayload),
    PositionDelete(PositionDeletePayload),
    RiskAccountSet(RiskAccountSetPayload),
    InsuranceFundSet(InsuranceFundSetPayload),
    /// A kind that is known, with a payload that could not be read.
    Unreadable(PersistKind),
    /// A kind that is not known.
    Unknown(u8),
}

/// One frame; a sequence number of zero means that the frame is not sequenced.
#[derive(Debug, Clone, Copy, PartialEq, Eq)]
pub struct PersistFrame {
    pub publisher_id: u16,
    pub seq: u64,
    pub body: PersistBody,
}

impl PersistFrame {
    /// A frame without a sequence number.
    pub fn of(body: PersistBody) -> (r: PersistFrame)
        ensures
            r.publisher_id == 0,
            r.seq == 0,
            r.body == body,
    {
        PersistFrame { publisher_id: 0, seq: 0, body }
    }

    /// The kind of a frame, where it is known.
    pub open spec fn kind_of(self) -> Option<PersistKind> {
        match self.body {
            PersistBody::OrderUpsert(_) => Some(PersistKind::OrderUpsert),
            PersistBody::OrderDelete(_) => Some(PersistKind::OrderDelete),
            PersistBody::OrderFillUpdate(_) => Some(PersistKind::OrderFillUpdate),
            PersistBody::AccountSet(_) => Some(PersistKind::AccountSet),
            PersistBody::TradeInsert(_) => Some(PersistKind::TradeInsert),
            PersistBody::MatchingEvent(_) => Some(PersistKind::MatchingEvent),
            PersistBody::PositionUpsert(_) => Some(PersistKind::PositionUpsert),
            PersistBody::PositionDelete(_) => Some(PersistKind::PositionDelete),
            PersistBody::RiskAccountSet(_) => Some(PersistKind::RiskAccountSet),
            PersistBody::InsuranceFundSet(_) => Some(PersistKind::InsuranceFundSet),
            PersistBody::Unreadable(k) => Some(k),
            PersistBody::Unknown(_) => None,
        }
    }

    pub fn kind(&self) -> (r: Option<PersistKind>)
        ensures
            r == self.kind_of(),
    {
        match self.body {
            PersistBody::OrderUpsert(_) => Some(PersistKind::OrderUpsert),
            PersistBody::OrderDelete(_) => Some(PersistKind::OrderDelete),
            PersistBody::OrderFillUpdate(_) => Some(PersistKind::OrderFillUpdate),
            PersistBody::AccountSet(_) => Some(PersistKind::AccountSet),
            PersistBody::TradeInsert(_) => Some(PersistKind::TradeInsert),
            PersistBody::MatchingEvent(_) => Some(PersistKind::MatchingEvent),
            PersistBody::PositionUpsert(_) => Some(PersistKind::PositionUpsert),
            PersistBody::PositionDelete(_) => Some(PersistKind::PositionDelete),
            PersistBody::RiskAccountSet(_) => Some(PersistKind::RiskAccountSet),
            PersistBody::InsuranceFundSet(_) => Some(PersistKind::InsuranceFundSet),
            PersistBody::Unreadable(k) => Some(k),
            PersistBody::Unknown(_) => None,
        }
    }
}

} // verus!
