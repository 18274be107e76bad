//! Staging of persist frames for the relational store: admission by sequence
//! number, decoding into rows, and what has to be written last.
use crate::persist_event::{
    is_date_ms, unpack_str, AccountSetPayload, MatchingEventPayload, OrderDeletePayload,
    OrderFillUpdatePayload, OrderUpsertPayload, PersistBody, PersistFrame, TradeInsertPayload,
};
use crate::redis_store;
use crate::text;
use std::collections::HashMap;
use std::collections::HashSet;
use vstd::prelude::*;

verus! {

/// The name of an order status by its wire number.
pub open spec fn status_name(code: u8) -> Option<Seq<char>> {
    if code == 0 {
        Some("PENDING"@)
    } else if code == 1 {
        Some("TRADING"@)
    } else if code == 2 {
        Some("COMPLETED"@)
    } else if code == 3 {
        Some("CANCELED"@)
    } else if code == 4 {
        Some("REJECTED"@)
    } else {
        None
    }
}

pub open spec fn opt_text(s: Option<&'static str>) -> Option<Seq<char>> {
    match s {
        Some(t) => Some(t@),
        None => None,
    }
}

pub open spec fn or_zero(v: Option<i64>) -> i64 {
    match v {
        Some(x) => x,
        None => 0,
    }
}

pub fn status_str(code: u8) -> (r: Option<&'static str>)
    ensures
        opt_text(r) == status_name(code),
{
    match code {
        0 => Some("PENDING"),
        1 => Some("TRADING"),
        2 => Some("COMPLETED"),
        3 => Some("CANCELED"),
        4 => Some("REJECTED"),
        _ => None,
    }
}

pub open spec fn side_name(code: u8) -> Seq<char> {
    if code == 0 {
        "buy"@
    } else {
        "sell"@
    }
}

pub fn side_str(code: u8) -> (r: &'static str)
    ensures
        r@ == side_name(code),
{
    if code == 0 {
        "buy"
    } else {
        "sell"
    }
}

/// The stored names agree with the order states they stand for.
pub proof fn law_status_names_agree(status: crate::order_state::DbOrderStatus)
    ensures
        status_name(status.code()) == Some(status.name()),
{
}

/// An order row to be written.
#[derive(Debug)]
pub struct UpsertRow {
    pub id: i64,
    pub user_id: i64,
    pub symbol: String,
    pub side: &'static str,
    pub order_type: String,
    pub price_atoms: Option<i64>,
    pub quantity_atoms: i64,
    pub filled_atoms: i64,
    pub status: &'static str,
    pub freeze_price_atoms: Option<i64>,
    pub client_order_id: Option<String>,
    pub created_at_ms: i64,
}

#[verifier::ext_equal]
pub struct UpsertView {
    pub id: i64,
    pub user_id: i64,
    pub symbol: Seq<char>,
    pub side: Seq<char>,
    pub order_type: Seq<char>,
    pub price_atoms: Option<i64>,
    pub quantity_atoms: i64,
    pub filled_atoms: i64,
    pub status: Seq<char>,
    pub freeze_price_atoms: Option<i64>,
    pub client_order_id: Option<Seq<char>>,
    pub created_at_ms: i64,
}

impl UpsertRow {
    pub open spec fn view(&self) -> UpsertView {
        UpsertView {
            id: self.id,
            user_id: self.user_id,
            symbol: self.symbol@,
            side: self.side@,
            order_type: self.order_type@,
            price_atoms: self.price_atoms,
            quantity_atoms: self.quantity_atoms,
            filled_atoms: self.filled_atoms,
            status: self.status@,
            freeze_price_atoms: self.freeze_price_atoms,
            client_order_id: text::opt_string(self.client_order_id),
            created_at_ms: self.created_at_ms,
        }
    }
}

/// A fill to be written.
#[derive(Debug)]
pub struct FillRow {
    pub id: i64,
    pub filled_atoms: i64,
    pub status: &'static str,
}

#[verifier::ext_equal]
pub struct FillView {
    pub id: i64,
    pub filled_atoms: i64,
    pub status: Seq<char>,
}

impl FillRow {
    pub open spec fn view(&self) -> FillView {
        FillView { id: self.id, filled_atoms: self.filled_atoms, status: self.status@ }
    }
}

/// An account row to be written.
#[derive(Debug)]
pub struct AccountRow {
    pub user_id: i64,
    pub asset: String,
    pub balance_atoms: i64,
    pub frozen_atoms: i64,
}

#[verifier::ext_equal]
pub struct AccountView {
    pub user_id: i64,
    pub asset: Seq<char>,
    pub balance_atoms: i64,
    pub frozen_atoms: i64,
}

impl AccountRow {
    pub open spec fn view(&self) -> AccountView {
        AccountView {
            user_id: self.user_id,
            asset: self.asset@,
            balance_atoms: self.balance_atoms,
            frozen_atoms: self.frozen_atoms,
        }
    }
}

/// A trade to be written.
#[derive(Debug)]
pub struct TradeRow {
    pub buy_order_id: i64,
    pub sell_order_id: i64,
    pub symbol: String,
    pub price_atoms: i64,
    pub qty_atoms: i64,
    pub created_at_ms: i64,
}

#[verifier::ext_equal]
pub struct TradeView {
    pub buy_order_id: i64,
    pub sell_order_id: i64,
    pub symbol: Seq<char>,
    pub price_atoms: i64,
    pub qty_atoms: i64,
    pub created_at_ms: i64,
}

impl TradeRow {
    pub open spec fn view(&self) -> TradeView {
        TradeView {
            buy_order_id: self.buy_order_id,
            sell_order_id: self.sell_order_id,
            symbol: self.symbol@,
            price_atoms: self.price_atoms,
            qty_atoms: self.qty_atoms,
            created_at_ms: self.created_at_ms,
        }
    }
}

/// A matching event to be written.
#[derive(Debug)]
pub struct MatchingEventRow {
    pub sequence: i64,
    pub response_stream_id: i32,
    pub event_kind: i16,
    pub order_id: i64,
    pub client_order_id: i64,
    pub participant_id: i64,
    pub counterparty_order_id: i64,
    pub symbol: String,
    pub price_ticks: i64,
    pub quantity_lots: i64,
    pub remaining_lots: i64,
    pub ts_ns: i64,
}

#[verifier::ext_equal]
pub struct EventView {
    pub sequence: i64,
    pub response_stream_id: i32,
    pub event_kind: i16,
    pub order_id: i64,
    pub client_order_id: i64,
    pub participant_id: i64,
    pub counterparty_order_id: i64,
    pub symbol: Seq<char>,
    pub price_ticks: i64,
    pub quantity_lots: i64,
    pub remaining_lots: i64,
    pub ts_ns: i64,
}

impl MatchingEventRow {
    pub open spec fn view(&self) -> EventView {
        EventView {
            sequence: self.sequence,
            response_stream_id: self.response_stream_id,
            event_kind: self.event_kind,
            order_id: self.order_id,
            client_order_id: self.client_order_id,
            participant_id: self.participant_id,
            counterparty_order_id: self.counterparty_order_id,
            symbol: self.symbol@,
            price_ticks: self.price_ticks,
            quantity_lots: self.quantity_lots,
            remaining_lots: self.remaining_lots,
            ts_ns: self.ts_ns,
        }
    }
}

/// Why a frame was left out.
#[derive(Debug, Clone, Copy, PartialEq, Eq, Structural)]
pub enum SkipReason {
    UnknownKind,
    UpsertBadStatus,
    UpsertBadTimestamp,
    UpsertEmptyString,
    FillBadStatus,
    AccountEmptyAsset,
    TradeEmptySymbol,
    TradeBadTimestamp,
    MatchingEmptySymbol,
    MatchingBadTimestamp,
    PayloadDecodeFailed,
    AmountAtomsInvalid,
}

/// How often each reason came up.
#[derive(Debug, Clone, Copy, PartialEq, Eq, Structural)]
pub struct SkipCounts {
    pub unknown_kind: u64,
    pub upsert_bad_status: u64,
    pub upsert_bad_timestamp: u64,
    pub upsert_empty_string: u64,
    pub fill_bad_status: u64,
    pub account_empty_asset: u64,
    pub trade_empty_symbol: u64,
    pub trade_bad_timestamp: u64,
    pub matching_empty_symbol: u64,
    pub matching_bad_timestamp: u64,
    pub payload_decode_failed: u64,
    pub amount_atoms_invalid: u64,
}

impl SkipCounts {
    pub open spec fn none() -> SkipCounts {
        SkipCounts {
            unknown_kind: 0,
            upsert_bad_status: 0,
            upsert_bad_timestamp: 0,
            upsert_empty_string: 0,
            fill_bad_status: 0,
            account_empty_asset: 0,
            trade_empty_symbol: 0,
            trade_bad_timestamp: 0,
            matching_empty_symbol: 0,
            matching_bad_timestamp: 0,
            payload_decode_failed: 0,
            amount_atoms_invalid: 0,
        }
    }

    /// All reasons together.
    pub open spec fn sum(self) -> int {
        self.unknown_kind + self.upsert_bad_status + self.upsert_bad_timestamp
            + self.upsert_empty_string + self.fill_bad_status + self.account_empty_asset
            + self.trade_empty_symbol + self.trade_bad_timestamp + self.matching_empty_symbol
            + self.matching_bad_timestamp + self.payload_decode_failed + self.amount_atoms_invalid
    }

    /// One more of a reason.
    pub open spec fn with(self, reason: SkipReason) -> SkipCounts {
        match reason {
            SkipReason::UnknownKind => SkipCounts {
                unknown_kind: (self.unknown_kind + 1) as u64,
                ..self
            },
            SkipReason::UpsertBadStatus => SkipCounts {
                upsert_bad_status: (self.upsert_bad_status + 1) as u64,
                ..self
            },
            SkipReason::UpsertBadTimestamp => SkipCounts {
                upsert_bad_timestamp: (self.upsert_bad_timestamp + 1) as u64,
                ..self
            },
            SkipReason::UpsertEmptyString => SkipCounts {
                upsert_empty_string: (self.upsert_empty_string + 1) as u64,
                ..self
            },
            SkipReason::FillBadStatus => SkipCounts {
                fill_bad_status: (self.fill_bad_status + 1) as u64,
                ..self
            },
            SkipReason::AccountEmptyAsset => SkipCounts {
                account_empty_asset: (self.account_empty_asset + 1) as u64,
                ..self
            },
            SkipReason::TradeEmptySymbol => SkipCounts {
                trade_empty_symbol: (self.trade_empty_symbol + 1) as u64,
                ..self
            },
            SkipReason::TradeBadTimestamp => SkipCounts {
                trade_bad_timestamp: (self.trade_bad_timestamp + 1) as u64,
                ..self
            },
            SkipReason::MatchingEmptySymbol => SkipCounts {
                matching_empty_symbol: (self.matching_empty_symbol + 1) as u64,
                ..self
            },
            SkipReason::MatchingBadTimestamp => SkipCounts {
                matching_bad_timestamp: (self.matching_bad_timestamp + 1) as u64,
                ..self
            },
            SkipReason::PayloadDecodeFailed => SkipCounts {
                payload_decode_failed: (self.payload_decode_failed + 1) as u64,
                ..self
            },
            SkipReason::AmountAtomsInvalid => SkipCounts {
                amount_atoms_invalid: (self.amount_atoms_invalid + 1) as u64,
                ..self
            },
        }
    }

    pub fn total(&self) -> (r: u64)
        requires
            self.sum() <= u64::MAX,
        ensures
            r == self.sum(),
    {
        self.unknown_kind + self.upsert_bad_status + self.upsert_bad_timestamp
            + self.upsert_empty_string + self.fill_bad_status + self.account_empty_asset
            + self.trade_empty_symbol + self.trade_bad_timestamp + self.matching_empty_symbol
            + self.matching_bad_timestamp + self.payload_decode_failed + self.amount_atoms_invalid
    }
}

impl Default for SkipCounts {
    fn default() -> (r: SkipCounts)
        ensures
            r == SkipCounts::none(),
    {
        SkipCounts {
            unknown_kind: 0,
            upsert_bad_status: 0,
            upsert_bad_timestamp: 0,
            upsert_empty_string: 0,
            fill_bad_status: 0,
            account_empty_asset: 0,
            trade_empty_symbol: 0,
            trade_bad_timestamp: 0,
            matching_empty_symbol: 0,
            matching_bad_timestamp: 0,
            payload_decode_failed: 0,
            amount_atoms_invalid: 0,
        }
    }
}

/// A jump of the sequence beyond this is a restarted publisher, not lost frames.
pub const RESTART_JUMP: u64 = 0x100_0000_0000;

/// Rows staged for one transaction, and how far each publisher has been applied.
pub struct PgWriteBatch {
    upserts: Vec<UpsertRow>,
    deletes: Vec<i64>,
    fills: Vec<FillRow>,
    accounts: Vec<AccountRow>,
    trades: Vec<TradeRow>,
    matching_events: Vec<MatchingEventRow>,
    skip_counts: SkipCounts,
    skipped: u64,
    /// The last sequence number applied, by publisher.
    applied_seq: HashMap<u16, u64>,
    /// The last sequence number staged, by publisher.
    pending_max_seq: HashMap<u16, u64>,
    duplicate_seq_frames: u64,
    seq_gap_frames: u64,
    publisher_restarts: u64,
}

/// What a batch holds, over plain values.
#[verifier::ext_equal]
pub struct BatchView {
    pub upserts: Seq<UpsertView>,
    pub deletes: Seq<i64>,
    pub fills: Seq<FillView>,
    pub accounts: Seq<AccountView>,
    pub trades: Seq<TradeView>,
    pub events: Seq<EventView>,
    pub counts: SkipCounts,
    pub skipped: u64,
    pub applied: Map<u16, u64>,
    pub pending: Map<u16, u64>,
    pub duplicates: u64,
    pub gaps: u64,
    pub restarts: u64,
}

impl BatchView {
    /// A batch that nothing was staged in.
    pub open spec fn fresh() -> BatchView {
        BatchView {
            upserts: seq![],
            deletes: seq![],
            fills: seq![],
            accounts: seq![],
            trades: seq![],
            events: seq![],
            counts: SkipCounts::none(),
            skipped: 0,
            applied: Map::empty(),
            pending: Map::empty(),
            duplicates: 0,
            gaps: 0,
            restarts: 0,
        }
    }

    /// The highest sequence number of a publisher that was staged or applied.
    pub open spec fn reached(self, publisher: u16) -> u64 {
        if self.pending.contains_key(publisher) {
            self.pending[publisher]
        } else if self.applied.contains_key(publisher) {
            self.applied[publisher]
        } else {
            0
        }
    }

    /// Whether a frame is new: not sequenced, or beyond what was reached.
    pub open spec fn admits(self, publisher: u16, seq: u64) -> bool {
        seq == 0 || seq > self.reached(publisher)
    }

    /// The batch after a frame's sequence number was looked at.
    pub open spec fn admitted(self, publisher: u16, seq: u64) -> BatchView {
        let reached = self.reached(publisher);
        if seq == 0 {
            self
        } else if seq <= reached {
            BatchView { duplicates: (self.duplicates + 1) as u64, ..self }
        } else {
            let jump = seq - reached;
            BatchView {
                gaps: if reached > 0 && 1 < jump <= RESTART_JUMP {
                    (self.gaps + jump - 1) as u64
                } else {
                    self.gaps
                },
                restarts: if reached > 0 && jump > RESTART_JUMP {
                    (self.restarts + 1) as u64
                } else {
                    self.restarts
                },
                pending: self.pending.insert(publisher, seq),
                ..self
            }
        }
    }

    pub open spec fn skip(self, reason: SkipReason) -> BatchView {
        BatchView {
            counts: self.counts.with(reason),
            skipped: (self.skipped + 1) as u64,
            ..self
        }
    }

    /// Whether one more frame can be counted as left out.
    pub open spec fn can_skip(self) -> bool {
        &&& self.counts.sum() < u64::MAX
        &&& self.skipped < u64::MAX
    }

    /// Whether no counter is about to run over.
    pub open spec fn has_room(self) -> bool {
        &&& self.can_skip()
        &&& self.duplicates < u64::MAX
        &&& self.restarts < u64::MAX
        &&& self.gaps <= u64::MAX - RESTART_JUMP
    }

    /// The rows of the batch.
    pub open spec fn rows(self) -> nat {
        self.upserts.len() + self.deletes.len() + self.fills.len() + self.accounts.len()
            + self.trades.len() + self.events.len()
    }

    /// The batch without its rows.
    pub open spec fn without_rows(self) -> BatchView {
        BatchView {
            upserts: seq![],
            deletes: seq![],
            fills: seq![],
            accounts: seq![],
            trades: seq![],
            events: seq![],
            ..self
        }
    }

    /// The batch after its rows were committed: what was staged is applied.
    pub open spec fn committed(self) -> BatchView {
        BatchView {
            applied: promoted(self.applied, self.pending),
            pending: Map::empty(),
            ..self.without_rows()
        }
    }

    /// The batch after its rows were given up: nothing of it is applied.
    pub open spec fn dropped(self) -> BatchView {
        BatchView { pending: Map::empty(), ..self.without_rows() }
    }
}

/// The applied sequence numbers raised to those staged.
pub open spec fn promoted(applied: Map<u16, u64>, pending: Map<u16, u64>) -> Map<u16, u64> {
    Map::new(
        |p: u16| applied.contains_key(p) || pending.contains_key(p),
        |p: u16|
            if !pending.contains_key(p) {
                applied[p]
            } else if applied.contains_key(p) && applied[p] >= pending[p] {
                applied[p]
            } else {
                pending[p]
            },
    )
}

/// Whether a row may carry the time: a date not before the epoch. A negative
/// time is no time that a publisher took.
pub open spec fn storable_time(ms: i64) -> bool {
    0 <= ms <= crate::persist_event::MAX_DATE_MS
}

fn has_storable_time(ms: i64) -> (r: bool)
    ensures
        r == storable_time(ms),
{
    ms >= 0 && is_date_ms(ms)
}

/// The row of an order frame, or why there is none. A price of zero stands for
/// a market order and is stored as no price.
pub open spec fn upsert_of(p: OrderUpsertPayload) -> Result<UpsertView, SkipReason> {
    let symbol = crate::persist_event::unpacked(p.symbol@);
    let order_type = crate::persist_event::unpacked(p.order_type@);
    let coid = crate::persist_event::unpacked(p.client_order_id@);
    if status_name(p.status) is None {
        Err(SkipReason::UpsertBadStatus)
    } else if !storable_time(p.created_at_ms) {
        Err(SkipReason::UpsertBadTimestamp)
    } else if symbol.len() == 0 || order_type.len() == 0 {
        Err(SkipReason::UpsertEmptyString)
    } else if p.qty_atoms is None || p.filled_atoms is None || p.price_atoms is None {
        Err(SkipReason::AmountAtomsInvalid)
    } else {
        Ok(
            UpsertView {
                id: p.id,
                user_id: p.user_id,
                symbol,
                side: side_name(p.side),
                order_type,
                price_atoms: if p.price_atoms->0 == 0 {
                    None
                } else {
                    p.price_atoms
                },
                quantity_atoms: p.qty_atoms->0,
                filled_atoms: p.filled_atoms->0,
                status: status_name(p.status)->0,
                freeze_price_atoms: p.freeze_price_atoms,
                client_order_id: if coid.len() == 0 {
                    None
                } else {
                    Some(coid)
                },
                created_at_ms: p.created_at_ms,
            },
        )
    }
}

pub open spec fn fill_of(p: OrderFillUpdatePayload) -> Result<FillView, SkipReason> {
    if status_name(p.status) is None {
        Err(SkipReason::FillBadStatus)
    } else if p.filled_atoms is None {
        Err(SkipReason::AmountAtomsInvalid)
    } else {
        Ok(
            FillView {
                id: p.id,
                filled_atoms: p.filled_atoms->0,
                status: status_name(p.status)->0,
            },
        )
    }
}

/// The atoms of an account field: those it carries, or the converted amount of
/// a publisher that left them at zero.
pub open spec fn field_atoms(atoms: i64, legacy: Option<i64>) -> Option<i64> {
    if atoms == 0 {
        legacy
    } else {
        Some(atoms)
    }
}

pub open spec fn account_of(p: AccountSetPayload) -> Result<AccountView, SkipReason> {
    let asset = crate::persist_event::unpacked(p.asset@);
    let balance = field_atoms(p.balance_atoms, p.legacy_balance_atoms);
    let frozen = field_atoms(p.frozen_atoms, p.legacy_frozen_atoms);
    if asset.len() == 0 {
        Err(SkipReason::AccountEmptyAsset)
    } else if balance is None || frozen is None {
        Err(SkipReason::PayloadDecodeFailed)
    } else {
        Ok(
            AccountView {
                user_id: p.user_id,
                asset,
                balance_atoms: balance->0,
                frozen_atoms: frozen->0,
            },
        )
    }
}

pub open spec fn trade_of(p: TradeInsertPayload) -> Result<TradeView, SkipReason> {
    let symbol = crate::persist_event::unpacked(p.symbol@);
    if symbol.len() == 0 {
        Err(SkipReason::TradeEmptySymbol)
    } else if !storable_time(p.ts_ms) {
        Err(SkipReason::TradeBadTimestamp)
    } else if p.price_atoms is None || p.qty_atoms is None {
        Err(SkipReason::AmountAtomsInvalid)
    } else {
        Ok(
            TradeView {
                buy_order_id: p.buy_order_id,
                sell_order_id: p.sell_order_id,
                symbol,
                price_atoms: p.price_atoms->0,
                qty_atoms: p.qty_atoms->0,
                created_at_ms: p.ts_ms,
            },
        )
    }
}

pub open spec fn event_of(p: MatchingEventPayload) -> Result<EventView, SkipReason> {
    let symbol = crate::persist_event::unpacked(p.symbol@);
    if symbol.len() == 0 {
        Err(SkipReason::MatchingEmptySymbol)
    } else if p.sequence > i64::MAX || p.ts_ns > i64::MAX {
        Err(SkipReason::MatchingBadTimestamp)
    } else {
        Ok(
            EventView {
                sequence: p.sequence as i64,
                response_stream_id: p.response_stream_id,
                event_kind: p.event_kind as i16,
                order_id: p.order_id,
                client_order_id: p.client_order_id,
                participant_id: p.participant_id,
                counterparty_order_id: p.counterparty_order_id,
                symbol,
                price_ticks: p.price_ticks,
                quantity_lots: p.quantity_lots,
                remaining_lots: p.remaining_lots,
                ts_ns: p.ts_ns as i64,
            },
        )
    }
}

/// The batch after the body of an admitted frame, and whether it was taken.
pub open spec fn staged(v: BatchView, body: PersistBody) -> (BatchView, bool) {
    match body {
        PersistBody::OrderUpsert(p) => match upsert_of(p) {
            Ok(row) => (BatchView { upserts: v.upserts.push(row), ..v }, true),
            Err(reason) => (v.skip(reason), false),
        },
        PersistBody::OrderDelete(p) => (BatchView { deletes: v.deletes.push(p.id), ..v }, true),
        PersistBody::OrderFillUpdate(p) => match fill_of(p) {
            Ok(row) => (BatchView { fills: v.fills.push(row), ..v }, true),
            Err(reason) => (v.skip(reason), false),
        },
        PersistBody::AccountSet(p) => match account_of(p) {
            Ok(row) => (BatchView { accounts: v.accounts.push(row), ..v }, true),
            Err(reason) => (v.skip(reason), false),
        },
        PersistBody::TradeInsert(p) => match trade_of(p) {
            Ok(row) => (BatchView { trades: v.trades.push(row), ..v }, true),
            Err(reason) => (v.skip(reason), false),
        },
        PersistBody::MatchingEvent(p) => match event_of(p) {
            Ok(row) => (BatchView { events: v.events.push(row), ..v }, true),
            Err(reason) => (v.skip(reason), false),
        },
        PersistBody::Unreadable(_) => (v.skip(SkipReason::PayloadDecodeFailed), false),
        _ => (v.skip(SkipReason::UnknownKind), false),
    }
}

/// The batch after a frame, and whether it was taken.
pub open spec fn pushed(v: BatchView, frame: PersistFrame) -> (BatchView, bool) {
    let w = v.admitted(frame.publisher_id, frame.seq);
    if v.admits(frame.publisher_id, frame.seq) {
        staged(w, frame.body)
    } else {
        (w, false)
    }
}

pub open spec fn upsert_views(s: Seq<UpsertRow>) -> Seq<UpsertView> {
    s.map_values(|r: UpsertRow| r.view())
}

pub open spec fn fill_views(s: Seq<FillRow>) -> Seq<FillView> {
    s.map_values(|r: FillRow| r.view())
}

pub open spec fn account_views(s: Seq<AccountRow>) -> Seq<AccountView> {
    s.map_values(|r: AccountRow| r.view())
}

pub open spec fn trade_views(s: Seq<TradeRow>) -> Seq<TradeView> {
    s.map_values(|r: TradeRow| r.view())
}

pub open spec fn event_views(s: Seq<MatchingEventRow>) -> Seq<EventView> {
    s.map_values(|r: MatchingEventRow| r.view())
}

impl PgWriteBatch {
    pub closed spec fn view(&self) -> BatchView {
        BatchView {
            upserts: upsert_views(self.upserts@),
            deletes: self.deletes@,
            fills: fill_views(self.fills@),
            accounts: account_views(self.accounts@),
            trades: trade_views(self.trades@),
            events: event_views(self.matching_events@),
            counts: self.skip_counts,
            skipped: self.skipped,
            applied: self.applied_seq@,
            pending: self.pending_max_seq@,
            duplicates: self.duplicate_seq_frames,
            gaps: self.seq_gap_frames,
            restarts: self.publisher_restarts,
        }
    }

    pub fn new() -> (r: PgWriteBatch)
        ensures
            r.view() == BatchView::fresh(),
    {
        let r = PgWriteBatch {
            upserts: Vec::new(),
            deletes: Vec::new(),
            fills: Vec::new(),
            accounts: Vec::new(),
            trades: Vec::new(),
            matching_events: Vec::new(),
            skip_counts: SkipCounts::default(),
            skipped: 0,
            applied_seq: HashMap::new(),
            pending_max_seq: HashMap::new(),
            duplicate_seq_frames: 0,
            seq_gap_frames: 0,
            publisher_restarts: 0,
        };
        proof {
            assert(r.view() =~= BatchView::fresh());
        }
        r
    }

    /// Takes over the sequence numbers applied before a restart.
    pub fn set_applied_floors(&mut self, floors: HashMap<u16, u64>)
        ensures
            final(self).view() == (BatchView { applied: floors@, ..old(self).view() }),
    {
        self.applied_seq = floors;
    }

    /// Looks at a sequence number: tells whether the frame is new, and counts
    /// duplicates, gaps and restarts.
    pub fn admit_seq(&mut self, publisher_id: u16, seq: u64) -> (r: bool)
        requires
            old(self).view().has_room(),
        ensures
            r == old(self).view().admits(publisher_id, seq),
            final(self).view() == old(self).view().admitted(publisher_id, seq),
    {
        broadcast use vstd::std_specs::hash::group_hash_axioms;

        if seq == 0 {
            return true;
        }
        let reached: u64 = match self.pending_max_seq.get(&publisher_id) {
            Some(v) => *v,
            None => match self.applied_seq.get(&publisher_id) {
                Some(v) => *v,
                None => 0,
            },
        };
        if seq <= reached {
            self.duplicate_seq_frames = self.duplicate_seq_frames + 1;
            return false;
        }
        let jump = seq - reached;
        if reached > 0 && jump > 1 {
            if jump > RESTART_JUMP {
                self.publisher_restarts = self.publisher_restarts + 1;
            } else {
                self.seq_gap_frames = self.seq_gap_frames + (jump - 1);
            }
        }
        self.pending_max_seq.insert(publisher_id, seq);
        true
    }

    pub fn len(&self) -> (r: usize)
        requires
            self.view().rows() <= usize::MAX,
        ensures
            r == self.view().rows(),
    {
        self.upserts.len() + self.deletes.len() + self.fills.len() + self.accounts.len()
            + self.trades.len() + self.matching_events.len()
    }

    pub fn is_empty(&self) -> (r: bool)
        ensures
            r == (self.view().rows() == 0),
    {
        self.upserts.len() == 0 && self.deletes.len() == 0 && self.fills.len() == 0
            && self.accounts.len() == 0 && self.trades.len() == 0 && self.matching_events.len()
            == 0
    }

    pub fn skipped(&self) -> (r: u64)
        ensures
            r == self.view().skipped,
    {
        self.skipped
    }

    pub fn skip_counts(&self) -> (r: SkipCounts)
        ensures
            r == self.view().counts,
    {
        self.skip_counts
    }

    pub fn duplicate_seq_frames(&self) -> (r: u64)
        ensures
            r == self.view().duplicates,
    {
        self.duplicate_seq_frames
    }

    pub fn seq_gap_frames(&self) -> (r: u64)
        ensures
            r == self.view().gaps,
    {
        self.seq_gap_frames
    }

    pub fn publisher_restarts(&self) -> (r: u64)
        ensures
            r == self.view().restarts,
    {
        self.publisher_restarts
    }

    pub fn upserts(&self) -> (r: &Vec<UpsertRow>)
        ensures
            upsert_views(r@) == self.view().upserts,
    {
        &self.upserts
    }

    pub fn deletes(&self) -> (r: &Vec<i64>)
        ensures
            r@ == self.view().deletes,
    {
        &self.deletes
    }

    pub fn fills(&self) -> (r: &Vec<FillRow>)
        ensures
            fill_views(r@) == self.view().fills,
    {
        &self.fills
    }

    pub fn accounts(&self) -> (r: &Vec<AccountRow>)
        ensures
            account_views(r@) == self.view().accounts,
    {
        &self.accounts
    }

    pub fn trades(&self) -> (r: &Vec<TradeRow>)
        ensures
            trade_views(r@) == self.view().trades,
    {
        &self.trades
    }

    pub fn matching_events(&self) -> (r: &Vec<MatchingEventRow>)
        ensures
            event_views(r@) == self.view().events,
    {
        &self.matching_events
    }

    /// The sequence numbers to be written with the rows.
    pub fn pending_checkpoints(&self) -> (r: &HashMap<u16, u64>)
        ensures
            r@ == self.view().pending,
    {
        &self.pending_max_seq
    }

    fn clear_rows(&mut self)
        ensures
            final(self).view() == old(self).view().without_rows(),
    {
        self.upserts.clear();
        self.deletes.clear();
        self.fills.clear();
        self.accounts.clear();
        self.trades.clear();
        self.matching_events.clear();
        proof {
            assert(self.view() =~= old(self).view().without_rows());
        }
    }

    /// Gives the rows up without having applied them: the frames may come again.
    pub fn clear_payloads(&mut self)
        ensures
            final(self).view() == old(self).view().dropped(),
    {
        self.clear_rows();
        self.pending_max_seq.clear();
        proof {
            assert(self.view() =~= old(self).view().dropped());
        }
    }

    /// Notes that the rows were committed.
    pub fn mark_committed(&mut self)
        ensures
            final(self).view() == old(self).view().committed(),
    {
        broadcast use vstd::std_specs::hash::group_hash_axioms;

        let ghost applied = self.applied_seq@;
        let ghost pending = self.pending_max_seq@;
        let publishers = key_list(&self.pending_max_seq);
        let mut i: usize = 0;
        while i < publishers.len()
            invariant
                0 <= i <= publishers@.len(),
                pending == self.pending_max_seq@,
                publishers@.no_duplicates(),
                forall|p: u16| #[trigger] publishers@.contains(p) <==> pending.contains_key(p),
                self.view() == (BatchView { applied: self.applied_seq@, ..old(self).view() }),
                forall|p: u16| #[trigger]
                    self.applied_seq@.contains_key(p) <==> applied.contains_key(p) || (exists|
                        j: int,
                    | 0 <= j < i && #[trigger] publishers@[j] == p),
                forall|j: int|
                    0 <= j < i ==> self.applied_seq@[#[trigger] publishers@[j]] == promoted(
                        applied,
                        pending,
                    )[publishers@[j]],
                forall|p: u16| #[trigger]
                    applied.contains_key(p) && !(exists|j: int|
                        0 <= j < i && #[trigger] publishers@[j] == p) ==> self.applied_seq@[p]
                        == applied[p],
            decreases publishers@.len() - i,
        {
            broadcast use vstd::std_specs::hash::group_hash_axioms;

            let p = publishers[i];
            let ghost before = self.applied_seq@;
            proof {
                assert(publishers@.contains(p));
                assert(!(exists|j: int| 0 <= j < i && #[trigger] publishers@[j] == p));
            }
            let seq = match self.pending_max_seq.get(&p) {
                Some(v) => *v,
                None => 0,
            };
            let floor: u64 = match self.applied_seq.get(&p) {
                Some(v) => *v,
                None => 0,
            };
            if seq > floor {
                self.applied_seq.insert(p, seq);
            } else {
                self.applied_seq.insert(p, floor);
            }
            proof {
                assert(publishers@[i as int] == p);
                assert forall|j: int| 0 <= j < i + 1 implies self.applied_seq@[#[trigger] publishers@[j]]
                    == promoted(applied, pending)[publishers@[j]] by {
                    if j < i {
                        assert(publishers@[j] != p);
                    }
                }
                assert forall|q: u16| #[trigger] self.applied_seq@.contains_key(q) <==> applied.contains_key(
                    q,
                ) || (exists|j: int| 0 <= j < i + 1 && #[trigger] publishers@[j] == q) by {
                    assert(before.contains_key(q) <==> applied.contains_key(q) || (exists|j: int|
                        0 <= j < i && #[trigger] publishers@[j] == q));
                    if exists|j: int| 0 <= j < i + 1 && #[trigger] publishers@[j] == q {
                        let j = choose|j: int| 0 <= j < i + 1 && #[trigger] publishers@[j] == q;
                        if j < i {
                            assert(exists|k: int| 0 <= k < i && #[trigger] publishers@[k] == q);
                        }
                    }
                    if exists|j: int| 0 <= j < i && #[trigger] publishers@[j] == q {
                        let j = choose|j: int| 0 <= j < i && #[trigger] publishers@[j] == q;
                        assert(publishers@[j] == q);
                    }
                }
                assert forall|q: u16| #[trigger] applied.contains_key(q) && !(exists|j: int|
                    0 <= j < i + 1 && #[trigger] publishers@[j] == q) implies self.applied_seq@[q]
                    == applied[q] by {
                    assert(q != p);
                    assert(!(exists|j: int| 0 <= j < i && #[trigger] publishers@[j] == q)) by {
                        if exists|j: int| 0 <= j < i && #[trigger] publishers@[j] == q {
                            let j = choose|j: int| 0 <= j < i && #[trigger] publishers@[j] == q;
                            assert(0 <= j < i + 1 && publishers@[j] == q);
                        }
                    }
                }
            }
            i = i + 1;
        }
        proof {
            let goal = promoted(applied, pending);
            assert forall|p: u16| self.applied_seq@.contains_key(p) <==> goal.contains_key(p) by {
                if pending.contains_key(p) {
                    assert(publishers@.contains(p));
                    let j = choose|j: int| 0 <= j < publishers@.len() && publishers@[j] == p;
                    assert(0 <= j < i && publishers@[j] == p);
                }
                if exists|j: int| 0 <= j < i && #[trigger] publishers@[j] == p {
                    let j = choose|j: int| 0 <= j < i && #[trigger] publishers@[j] == p;
                    assert(publishers@.contains(p));
                }
            }
            assert forall|p: u16| #[trigger] goal.contains_key(p) implies self.applied_seq@[p]
                == goal[p] by {
                if pending.contains_key(p) {
                    assert(publishers@.contains(p));
                    let j = choose|j: int| 0 <= j < publishers@.len() && publishers@[j] == p;
                    assert(self.applied_seq@[publishers@[j]] == goal[publishers@[j]]);
                } else {
                    assert(!(exists|j: int| 0 <= j < i && #[trigger] publishers@[j] == p)) by {
                        if exists|j: int| 0 <= j < i && #[trigger] publishers@[j] == p {
                            let j = choose|j: int| 0 <= j < i && #[trigger] publishers@[j] == p;
                            assert(publishers@.contains(p));
                        }
                    }
                }
            }
            assert(self.applied_seq@ =~= goal);
        }
        self.pending_max_seq.clear();
        self.clear_rows();
        proof {
            assert(self.view() =~= old(self).view().committed());
        }
    }

    fn skip(&mut self, reason: SkipReason)
        requires
            old(self).view().can_skip(),
        ensures
            final(self).view() == old(self).view().skip(reason),
    {
        self.skipped = self.skipped + 1;
        let c = self.skip_counts;
        self.skip_counts =
        match reason {
            SkipReason::UnknownKind => SkipCounts { unknown_kind: c.unknown_kind + 1, ..c },
            SkipReason::UpsertBadStatus => SkipCounts {
                upsert_bad_status: c.upsert_bad_status + 1,
                ..c
            },
            SkipReason::UpsertBadTimestamp => SkipCounts {
                upsert_bad_timestamp: c.upsert_bad_timestamp + 1,
                ..c
            },
            SkipReason::UpsertEmptyString => SkipCounts {
                upsert_empty_string: c.upsert_empty_string + 1,
                ..c
            },
            SkipReason::FillBadStatus => SkipCounts { fill_bad_status: c.fill_bad_status + 1, ..c },
            SkipReason::AccountEmptyAsset => SkipCounts {
                account_empty_asset: c.account_empty_asset + 1,
                ..c
            },
            SkipReason::TradeEmptySymbol => SkipCounts {
                trade_empty_symbol: c.trade_empty_symbol + 1,
                ..c
            },
            SkipReason::TradeBadTimestamp => SkipCounts {
                trade_bad_timestamp: c.trade_bad_timestamp + 1,
                ..c
            },
            SkipReason::MatchingEmptySymbol => SkipCounts {
                matching_empty_symbol: c.matching_empty_symbol + 1,
                ..c
            },
            SkipReason::MatchingBadTimestamp => SkipCounts {
                matching_bad_timestamp: c.matching_bad_timestamp + 1,
                ..c
            },
            SkipReason::PayloadDecodeFailed => SkipCounts {
                payload_decode_failed: c.payload_decode_failed + 1,
                ..c
            },
            SkipReason::AmountAtomsInvalid => SkipCounts {
                amount_atoms_invalid: c.amount_atoms_invalid + 1,
                ..c
            },
        };
    }

    /// Stages one frame; tells whether it was taken. A frame that was seen
    /// before or cannot be read is left out and counted.
    pub fn push(&mut self, frame: &PersistFrame) -> (r: bool)
        requires
            old(self).view().has_room(),
        ensures
            (final(self).view(), r) == pushed(old(self).view(), *frame),
    {
        if !self.admit_seq(frame.publisher_id, frame.seq) {
            return false;
        }
        let ghost v = self.view();
        match frame.body {
            PersistBody::OrderUpsert(p) => match decode_upsert(&p) {
                Ok(row) => {
                    self.push_row(row);
                    true
                },
                Err(reason) => {
                    self.skip(reason);
                    false
                },
            },
            PersistBody::OrderDelete(p) => {
                self.push_delete(&p);
                true
            },
            PersistBody::OrderFillUpdate(p) => match decode_fill(&p) {
                Ok(row) => {
                    self.fills.push(row);
                    proof {
                        assert(self.view().fills =~= v.fills.push(row.view()));
                        assert(self.view() =~= staged(v, frame.body).0);
                    }
                    true
                },
                Err(reason) => {
                    self.skip(reason);
                    false
                },
            },
            PersistBody::AccountSet(p) => match decode_account(&p) {
                Ok(row) => {
                    let ghost rv = row.view();
                    self.accounts.push(row);
                    proof {
                        assert(self.view().accounts =~= v.accounts.push(rv));
                        assert(self.view() =~= staged(v, frame.body).0);
                    }
                    true
                },
                Err(reason) => {
                    self.skip(reason);
                    false
                },
            },
            PersistBody::TradeInsert(p) => match decode_trade(&p) {
                Ok(row) => {
                    let ghost rv = row.view();
                    self.trades.push(row);
                    proof {
                        assert(self.view().trades =~= v.trades.push(rv));
                        assert(self.view() =~= staged(v, frame.body).0);
                    }
                    true
                },
                Err(reason) => {
                    self.skip(reason);
                    false
                },
            },
            PersistBody::MatchingEvent(p) => match decode_event(&p) {
                Ok(row) => {
                    let ghost rv = row.view();
                    self.matching_events.push(row);
                    proof {
                        assert(self.view().events =~= v.events.push(rv));
                        assert(self.view() =~= staged(v, frame.body).0);
                    }
                    true
                },
                Err(reason) => {
                    self.skip(reason);
                    false
                },
            },
            PersistBody::Unreadable(_) => {
                self.skip(SkipReason::PayloadDecodeFailed);
                false
            },
            _ => {
                self.skip(SkipReason::UnknownKind);
                false
            },
        }
    }

    fn push_delete(&mut self, p: &OrderDeletePayload)
        ensures
            final(self).view() == (BatchView {
                deletes: old(self).view().deletes.push(p.id),
                ..old(self).view()
            }),
    {
        self.deletes.push(p.id);
    }

    /// Stages an order row that is already decoded. A quantity that could not
    /// be expressed in atoms is stored as zero.
    pub fn push_upsert_row(
        &mut self,
        id: i64,
        user_id: i64,
        symbol: String,
        side: &'static str,
        order_type: String,
        price_atoms: Option<i64>,
        quantity_atoms: Option<i64>,
        filled_atoms: Option<i64>,
        status: &'static str,
        freeze_price_atoms: Option<i64>,
        client_order_id: Option<String>,
        created_at_ms: i64,
    )
        ensures
            final(self).view() == (BatchView {
                upserts: old(self).view().upserts.push(
                    UpsertView {
                        id,
                        user_id,
                        symbol: symbol@,
                        side: side@,
                        order_type: order_type@,
                        price_atoms,
                        quantity_atoms: or_zero(quantity_atoms),
                        filled_atoms: or_zero(filled_atoms),
                        status: status@,
                        freeze_price_atoms,
                        client_order_id: text::opt_string(client_order_id),
                        created_at_ms,
                    },
                ),
                ..old(self).view()
            }),
    {
        let quantity_atoms = match quantity_atoms {
            Some(v) => v,
            None => 0,
        };
        let filled_atoms = match filled_atoms {
            Some(v) => v,
            None => 0,
        };
        self.push_row(
            UpsertRow {
                id,
                user_id,
                symbol,
                side,
                order_type,
                price_atoms,
                quantity_atoms,
                filled_atoms,
                status,
                freeze_price_atoms,
                client_order_id,
                created_at_ms,
            },
        );
    }

    fn push_row(&mut self, row: UpsertRow)
        ensures
            final(self).view() == (BatchView {
                upserts: old(self).view().upserts.push(row.view()),
                ..old(self).view()
            }),
    {
        self.upserts.push(row);
        proof {
            assert(self.view().upserts =~= old(self).view().upserts.push(row.view()));
        }
    }
}

fn key_list(m: &HashMap<u16, u64>) -> (r: Vec<u16>)
    ensures
        r@.no_duplicates(),
        forall|p: u16| #[trigger] r@.contains(p) <==> m@.contains_key(p),
{
    broadcast use vstd::std_specs::hash::group_hash_axioms;

    let mut out: Vec<u16> = Vec::new();
    for k in it: m.keys()
        invariant
            out@.len() == it.index(),
            forall|i: int| 0 <= i < out@.len() ==> out@[i] == *it.seq()[i],
    {
        out.push(*k);
    }
    proof {
        let walked = vstd::std_specs::iter::IteratorSpec::remaining(&m.keys()).unref();
        assert(out@ =~= walked);
        assert forall|p: u16| #[trigger] out@.contains(p) <==> m@.contains_key(p) by {
            assert(walked.to_set().contains(p) <==> walked.contains(p));
            assert(m@.dom().contains(p) <==> m@.contains_key(p));
        }
        assert forall|i: int, j: int| 0 <= i < j < out@.len() implies out@[i] != out@[j] by {
            assert(vstd::std_specs::iter::IteratorSpec::remaining(&m.keys())[i]
                != vstd::std_specs::iter::IteratorSpec::remaining(&m.keys())[j]);
        }
    }
    out
}

fn decode_upsert(p: &OrderUpsertPayload) -> (r: Result<UpsertRow, SkipReason>)
    ensures
        match r {
            Ok(row) => upsert_of(*p) == Ok::<UpsertView, SkipReason>(row.view()),
            Err(reason) => upsert_of(*p) == Err::<UpsertView, SkipReason>(reason),
        },
{
    let status = match status_str(p.status) {
        Some(s) => s,
        None => {
            return Err(SkipReason::UpsertBadStatus);
        },
    };
    if !has_storable_time(p.created_at_ms) {
        return Err(SkipReason::UpsertBadTimestamp);
    }
    let symbol = unpack_str(&p.symbol);
    let order_type = unpack_str(&p.order_type);
    let coid = unpack_str(&p.client_order_id);
    if symbol.as_str().is_empty() || order_type.as_str().is_empty() {
        return Err(SkipReason::UpsertEmptyString);
    }
    let (quantity_atoms, filled_atoms, price) = match (p.qty_atoms, p.filled_atoms, p.price_atoms) {
        (Some(q), Some(f), Some(price)) => (q, f, price),
        _ => {
            return Err(SkipReason::AmountAtomsInvalid);
        },
    };
    Ok(
        UpsertRow {
            id: p.id,
            user_id: p.user_id,
            symbol,
            side: side_str(p.side),
            order_type,
            price_atoms: if price == 0 {
                None
            } else {
                Some(price)
            },
            quantity_atoms,
            filled_atoms,
            status,
            freeze_price_atoms: p.freeze_price_atoms,
            client_order_id: if coid.as_str().is_empty() {
                None
            } else {
                Some(coid)
            },
            created_at_ms: p.created_at_ms,
        },
    )
}

fn decode_fill(p: &OrderFillUpdatePayload) -> (r: Result<FillRow, SkipReason>)
    ensures
        match r {
            Ok(row) => fill_of(*p) == Ok::<FillView, SkipReason>(row.view()),
            Err(reason) => fill_of(*p) == Err::<FillView, SkipReason>(reason),
        },
{
    let status = match status_str(p.status) {
        Some(s) => s,
        None => {
            return Err(SkipReason::FillBadStatus);
        },
    };
    match p.filled_atoms {
        Some(filled_atoms) => Ok(FillRow { id: p.id, filled_atoms, status }),
        None => Err(SkipReason::AmountAtomsInvalid),
    }
}

fn decode_account(p: &AccountSetPayload) -> (r: Result<AccountRow, SkipReason>)
    ensures
        match r {
            Ok(row) => account_of(*p) == Ok::<AccountView, SkipReason>(row.view()),
            Err(reason) => account_of(*p) == Err::<AccountView, SkipReason>(reason),
        },
{
    let asset = unpack_str(&p.asset);
    if asset.as_str().is_empty() {
        return Err(SkipReason::AccountEmptyAsset);
    }
    let balance = if p.balance_atoms == 0 {
        p.legacy_balance_atoms
    } else {
        Some(p.balance_atoms)
    };
    let frozen = if p.frozen_atoms == 0 {
        p.legacy_frozen_atoms
    } else {
        Some(p.frozen_atoms)
    };
    match (balance, frozen) {
        (Some(balance_atoms), Some(frozen_atoms)) => Ok(
            AccountRow { user_id: p.user_id, asset, balance_atoms, frozen_atoms },
        ),
        _ => Err(SkipReason::PayloadDecodeFailed),
    }
}

fn decode_trade(p: &TradeInsertPayload) -> (r: Result<TradeRow, SkipReason>)
    ensures
        match r {
            Ok(row) => trade_of(*p) == Ok::<TradeView, SkipReason>(row.view()),
            Err(reason) => trade_of(*p) == Err::<TradeView, SkipReason>(reason),
        },
{
    let symbol = unpack_str(&p.symbol);
    if symbol.as_str().is_empty() {
        return Err(SkipReason::TradeEmptySymbol);
    }
    if !has_storable_time(p.ts_ms) {
        return Err(SkipReason::TradeBadTimestamp);
    }
    match (p.price_atoms, p.qty_atoms) {
        (Some(price_atoms), Some(qty_atoms)) => Ok(
            TradeRow {
                buy_order_id: p.buy_order_id,
                sell_order_id: p.sell_order_id,
                symbol,
                price_atoms,
                qty_atoms,
                created_at_ms: p.ts_ms,
            },
        ),
        _ => Err(SkipReason::AmountAtomsInvalid),
    }
}

fn decode_event(p: &MatchingEventPayload) -> (r: Result<MatchingEventRow, SkipReason>)
    ensures
        match r {
            Ok(row) => event_of(*p) == Ok::<EventView, SkipReason>(row.view()),
            Err(reason) => event_of(*p) == Err::<EventView, SkipReason>(reason),
        },
{
    let symbol = unpack_str(&p.symbol);
    if symbol.as_str().is_empty() {
        return Err(SkipReason::MatchingEmptySymbol);
    }
    if p.sequence > i64::MAX as u64 || p.ts_ns > i64::MAX as u64 {
        return Err(SkipReason::MatchingBadTimestamp);
    }
    Ok(
        MatchingEventRow {
            sequence: p.sequence as i64,
            response_stream_id: p.response_stream_id,
            event_kind: p.event_kind as i16,
            order_id: p.order_id,
            client_order_id: p.client_order_id,
            participant_id: p.participant_id,
            counterparty_order_id: p.counterparty_order_id,
            symbol,
            price_ticks: p.price_ticks,
            quantity_lots: p.quantity_lots,
            remaining_lots: p.remaining_lots,
            ts_ns: p.ts_ns as i64,
        },
    )
}

/// A sequenced frame is applied exactly once: once it was admitted it is a
/// duplicate until its batch is given up, and for good once its batch is
/// committed; a batch that is given up leaves it to be admitted again.
pub proof fn law_frames_are_applied_once(v: BatchView, publisher: u16, seq: u64)
    requires
        seq > 0,
        v.admits(publisher, seq),
        v.pending.contains_key(publisher) && v.applied.contains_key(publisher)
            ==> v.applied[publisher] <= v.pending[publisher],
    ensures
        !v.admitted(publisher, seq).admits(publisher, seq),
        !v.admitted(publisher, seq).committed().admits(publisher, seq),
        v.admitted(publisher, seq).dropped().admits(publisher, seq),
{
    let w = v.admitted(publisher, seq);
    assert(w.pending.contains_key(publisher));
    assert(w.committed().applied.contains_key(publisher));
}

/// What was applied stays applied: committing never lowers a publisher's
/// sequence number, and giving a batch up changes none.
pub proof fn law_floors_never_fall(v: BatchView, publisher: u16)
    requires
        v.applied.contains_key(publisher),
    ensures
        v.committed().applied.contains_key(publisher),
        v.committed().applied[publisher] >= v.applied[publisher],
        v.dropped().applied == v.applied,
{
}

/// Whether no later key equals the one at `i`.
pub open spec fn is_last(keys: Seq<i64>, i: int) -> bool {
    forall|j: int| i < j < keys.len() ==> #[trigger] keys[j] != keys[i]
}

/// `picked` lists, in order, the positions where a key stands for the last time.
pub open spec fn last_positions(keys: Seq<i64>, picked: Seq<usize>) -> bool {
    &&& forall|a: int, b: int| 0 <= a < b < picked.len() ==> picked[a] < picked[b]
    &&& forall|a: int|
        0 <= a < picked.len() ==> (#[trigger] picked[a]) < keys.len() && is_last(
            keys,
            picked[a] as int,
        )
    &&& forall|i: int| #[trigger]
        is_last(keys, i) && 0 <= i < keys.len() ==> picked.contains(i as usize)
}

/// The positions at which each id stands for the last time, in order.
fn last_indices(ids: &Vec<i64>) -> (r: Vec<usize>)
    ensures
        last_positions(ids@, r@),
{
    broadcast use vstd::std_specs::hash::group_hash_axioms;

    let mut seen: HashSet<i64> = HashSet::new();
    let mut keep: Vec<bool> = Vec::new();
    let mut k: usize = 0;
    while k < ids.len()
        invariant
            k <= ids@.len(),
            keep@.len() == k,
        decreases ids@.len() - k,
    {
        keep.push(false);
        k = k + 1;
    }
    let mut i: usize = ids.len();
    while i > 0
        invariant
            i <= ids@.len(),
            keep@.len() == ids@.len(),
            forall|x: i64| #[trigger]
                seen@.contains(x) <==> exists|j: int| i <= j < ids@.len() && #[trigger] ids@[j] == x,
            forall|j: int| i <= j < ids@.len() ==> #[trigger] keep@[j] == is_last(ids@, j),
        decreases i,
    {
        broadcast use vstd::std_specs::hash::group_hash_axioms;

        i = i - 1;
        let id = ids[i];
        let ghost before = seen@;
        let fresh = !seen.contains(&id);
        proof {
            if fresh {
                assert forall|j: int| i < j < ids@.len() implies #[trigger] ids@[j] != id by {
                    if ids@[j] == id {
                        assert(before.contains(id));
                    }
                }
                assert(is_last(ids@, i as int));
            } else {
                let j = choose|j: int| i + 1 <= j < ids@.len() && #[trigger] ids@[j] == id;
                assert(!is_last(ids@, i as int));
            }
        }
        keep.set(i, fresh);
        seen.insert(id);
        proof {
            assert forall|x: i64| #[trigger] seen@.contains(x) <==> exists|j: int|
                i <= j < ids@.len() && #[trigger] ids@[j] == x by {
                if before.contains(x) {
                    let j = choose|j: int| i + 1 <= j < ids@.len() && #[trigger] ids@[j] == x;
                    assert(ids@[j] == x);
                }
                if x == id {
                    assert(ids@[i as int] == x);
                }
                if exists|j: int| i <= j < ids@.len() && #[trigger] ids@[j] == x {
                    let j = choose|j: int| i <= j < ids@.len() && #[trigger] ids@[j] == x;
                    if j > i {
                        assert(exists|m: int| i + 1 <= m < ids@.len() && #[trigger] ids@[m] == x);
                    }
                }
            }
        }
    }
    collect_kept(&keep, ids)
}

fn collect_kept(keep: &Vec<bool>, ids: &Vec<i64>) -> (r: Vec<usize>)
    requires
        keep@.len() == ids@.len(),
        forall|j: int| 0 <= j < ids@.len() ==> #[trigger] keep@[j] == is_last(ids@, j),
    ensures
        last_positions(ids@, r@),
{
    let mut out: Vec<usize> = Vec::new();
    let mut i: usize = 0;
    while i < keep.len()
        invariant
            i <= keep@.len(),
            keep@.len() == ids@.len(),
            forall|j: int| 0 <= j < ids@.len() ==> #[trigger] keep@[j] == is_last(ids@, j),
            forall|a: int, b: int| 0 <= a < b < out@.len() ==> out@[a] < out@[b],
            forall|a: int|
                0 <= a < out@.len() ==> (#[trigger] out@[a]) < i && is_last(ids@, out@[a] as int),
            forall|j: int| #[trigger]
                is_last(ids@, j) && 0 <= j < i ==> out@.contains(j as usize),
        decreases keep@.len() - i,
    {
        let ghost before = out@;
        if keep[i] {
            out.push(i);
            proof {
                assert(keep@[i as int] == is_last(ids@, i as int));
                assert(out@[before.len() as int] == i);
            }
        }
        proof {
            assert forall|j: int| #[trigger] is_last(ids@, j) && 0 <= j < i + 1 implies out@.contains(
                j as usize,
            ) by {
                if j < i {
                    let a = choose|a: int| 0 <= a < before.len() && before[a] == j as usize;
                    assert(out@[a] == j as usize);
                } else {
                    assert(keep@[i as int] == is_last(ids@, i as int));
                    assert(out@[before.len() as int] == i);
                }
            }
        }
        i = i + 1;
    }
    out
}

/// `keys` are what `key` gives of the rows.
pub open spec fn keys_of<T, F: Fn(&T) -> i64>(rows: Seq<T>, key: F, keys: Seq<i64>) -> bool {
    &&& keys.len() == rows.len()
    &&& forall|i: int| 0 <= i < keys.len() ==> call_ensures(key, (&rows[i],), #[trigger] keys[i])
}

/// The positions at which each key stands for the last time, in order.
pub fn dedup_keep_last_indices_by_id<T, F: Fn(&T) -> i64>(rows: &[T], key: F) -> (r: Vec<usize>)
    requires
        forall|i: int| 0 <= i < rows@.len() ==> call_requires(key, (&#[trigger] rows@[i],)),
    ensures
        exists|keys: Seq<i64>| keys_of(rows@, key, keys) && #[trigger] last_positions(keys, r@),
{
    let mut keys: Vec<i64> = Vec::new();
    let mut i: usize = 0;
    while i < rows.len()
        invariant
            i <= rows@.len(),
            keys@.len() == i,
            forall|j: int| 0 <= j < rows@.len() ==> call_requires(key, (&#[trigger] rows@[j],)),
            forall|j: int| 0 <= j < i ==> call_ensures(key, (&rows@[j],), #[trigger] keys@[j]),
        decreases rows@.len() - i,
    {
        proof {
            assert(call_requires(key, (&rows@[i as int],)));
        }
        let k = key(&rows[i]);
        keys.push(k);
        i = i + 1;
    }
    let picked = last_indices(&keys);
    proof {
        assert(keys_of(rows@, key, keys@));
        assert(last_positions(keys@, picked@));
    }
    picked
}

/// The rows at the positions listed, which ascend.
fn pick_rows<T>(rows: Vec<T>, picked: &Vec<usize>) -> (r: Vec<T>)
    requires
        forall|a: int, b: int| 0 <= a < b < picked@.len() ==> picked@[a] < picked@[b],
        forall|a: int| 0 <= a < picked@.len() ==> (#[trigger] picked@[a]) < rows@.len(),
    ensures
        r@.len() == picked@.len(),
        forall|a: int| 0 <= a < picked@.len() ==> #[trigger] r@[a] == rows@[picked@[a] as int],
{
    let ghost all = rows@;
    let n = rows.len();
    let mut out: Vec<T> = Vec::new();
    let mut p: usize = 0;
    let mut at: usize = 0;
    for row in it: rows
        invariant
            it.seq() == all,
            at == it.index(),
            n == all.len(),
            p <= picked@.len(),
            forall|a: int, b: int| 0 <= a < b < picked@.len() ==> picked@[a] < picked@[b],
            out@.len() == p,
            forall|a: int| 0 <= a < p ==> #[trigger] out@[a] == all[picked@[a] as int],
            forall|a: int| p <= a < picked@.len() ==> (#[trigger] picked@[a]) >= at,
    {
        if p < picked.len() && picked[p] == at {
            out.push(row);
            proof {
                assert forall|a: int| p + 1 <= a < picked@.len() implies (#[trigger] picked@[a])
                    >= at + 1 by {
                    assert(picked@[p as int] < picked@[a]);
                }
            }
            p = p + 1;
        } else {
            proof {
                assert forall|a: int| p <= a < picked@.len() implies (#[trigger] picked@[a]) >= at
                    + 1 by {
                    if a > p {
                        assert(picked@[p as int] < picked@[a]);
                    }
                }
            }
        }
        proof {
            assert(at < n);
        }
        at = at + 1;
    }
    proof {
        if p < picked@.len() {
            assert(picked@[p as int] >= at);
        }
    }
    out
}

/// Keeps the last row of each key, in the order of the rows kept.
pub fn dedup_keep_last_by_id<T, F: Fn(&T) -> i64>(rows: Vec<T>, key: F) -> (r: Vec<T>)
    requires
        forall|i: int| 0 <= i < rows@.len() ==> call_requires(key, (&#[trigger] rows@[i],)),
    ensures
        exists|keys: Seq<i64>, picked: Seq<usize>|
            {
                &&& keys_of(rows@, key, keys)
                &&& #[trigger] last_positions(keys, picked)
                &&& r@.len() == picked.len()
                &&& forall|a: int| 0 <= a < picked.len() ==> #[trigger] r@[a] == rows@[picked[a] as int]
            },
{
    let picked = dedup_keep_last_indices_by_id(rows.as_slice(), key);
    let ghost keys = choose|keys: Seq<i64>|
        keys_of(rows@, key, keys) && #[trigger] last_positions(keys, picked@);
    let out = pick_rows(rows, &picked);
    proof {
        assert(last_positions(keys, picked@));
    }
    out
}

/// Whether no later row is of the same user and asset.
pub open spec fn is_last_account(rows: Seq<AccountRow>, i: int) -> bool {
    forall|j: int|
        i < j < rows.len() ==> (#[trigger] rows[j]).user_id != rows[i].user_id || rows[j].asset@
            != rows[i].asset@
}

/// `picked` lists, in order, the positions where a user and asset stand for the
/// last time.
pub open spec fn last_account_positions(rows: Seq<AccountRow>, picked: Seq<usize>) -> bool {
    &&& forall|a: int, b: int| 0 <= a < b < picked.len() ==> picked[a] < picked[b]
    &&& forall|a: int|
        0 <= a < picked.len() ==> (#[trigger] picked[a]) < rows.len() && is_last_account(
            rows,
            picked[a] as int,
        )
    &&& forall|i: int| #[trigger]
        is_last_account(rows, i) && 0 <= i < rows.len() ==> picked.contains(i as usize)
}

/// The positions at which each user and asset stands for the last time, in order.
pub fn dedup_account_indices_keep_last(rows: &Vec<AccountRow>) -> (r: Vec<usize>)
    ensures
        last_account_positions(rows@, r@),
{
    let mut out: Vec<usize> = Vec::new();
    let mut i: usize = 0;
    while i < rows.len()
        invariant
            i <= rows@.len(),
            forall|a: int, b: int| 0 <= a < b < out@.len() ==> out@[a] < out@[b],
            forall|a: int|
                0 <= a < out@.len() ==> (#[trigger] out@[a]) < i && is_last_account(
                    rows@,
                    out@[a] as int,
                ),
            forall|j: int| #[trigger]
                is_last_account(rows@, j) && 0 <= j < i ==> out@.contains(j as usize),
        decreases rows@.len() - i,
    {
        let ghost before = out@;
        let mut j: usize = i + 1;
        let mut last = true;
        while j < rows.len() && last
            invariant
                i < j <= rows@.len(),
                last ==> forall|m: int|
                    i < m < j ==> (#[trigger] rows@[m]).user_id != rows@[i as int].user_id
                        || rows@[m].asset@ != rows@[i as int].asset@,
                !last ==> !is_last_account(rows@, i as int),
            decreases rows@.len() - j,
        {
            if rows[j].user_id == rows[i].user_id && text::str_eq(
                rows[j].asset.as_str(),
                rows[i].asset.as_str(),
            ) {
                proof {
                    assert(rows@[j as int].user_id == rows@[i as int].user_id);
                }
                last = false;
            }
            j = j + 1;
        }
        if last {
            out.push(i);
            proof {
                assert(out@[before.len() as int] == i);
                assert(is_last_account(rows@, i as int));
            }
        }
        proof {
            assert forall|m: int| #[trigger] is_last_account(rows@, m) && 0 <= m < i + 1 implies
                out@.contains(m as usize) by {
                if m < i {
                    let a = choose|a: int| 0 <= a < before.len() && before[a] == m as usize;
                    assert(out@[a] == m as usize);
                } else {
                    assert(out@[before.len() as int] == i);
                }
            }
        }
        i = i + 1;
    }
    out
}

/// Keeps the last row of each user and asset, in the order of the rows kept.
pub fn dedup_accounts_keep_last(rows: Vec<AccountRow>) -> (r: Vec<AccountRow>)
    ensures
        exists|picked: Seq<usize>|
            {
                &&& #[trigger] last_account_positions(rows@, picked)
                &&& r@.len() == picked.len()
                &&& forall|a: int| 0 <= a < picked.len() ==> #[trigger] r@[a] == rows@[picked[a] as int]
            },
{
    let picked = dedup_account_indices_keep_last(&rows);
    let ghost all = rows@;
    let out = pick_rows(rows, &picked);
    proof {
        assert(last_account_positions(all, picked@));
    }
    out
}

/// What a backfill did.
#[derive(Debug, Clone, Copy, PartialEq, Eq, Structural)]
pub struct BackfillStats {
    pub redis_orders_scanned: u64,
    pub missing_in_pg: u64,
    pub backfilled: u64,
    /// Records that could not be read; they are left out, never guessed.
    pub skipped_decode: u64,
}

impl Default for BackfillStats {
    fn default() -> (r: BackfillStats)
        ensures
            r == (BackfillStats {
                redis_orders_scanned: 0,
                missing_in_pg: 0,
                backfilled: 0,
                skipped_decode: 0,
            }),
    {
        BackfillStats {
            redis_orders_scanned: 0,
            missing_in_pg: 0,
            backfilled: 0,
            skipped_decode: 0,
        }
    }
}

pub open spec fn known_side(s: Seq<char>) -> bool {
    s == "buy"@ || s == "sell"@
}

pub open spec fn known_status(s: Seq<char>) -> bool {
    s == "PENDING"@ || s == "TRADING"@ || s == "COMPLETED"@ || s == "CANCELED"@ || s
        == "REJECTED"@
}

fn static_side(s: &str) -> (r: Option<&'static str>)
    ensures
        opt_text(r) == (if known_side(s@) {
            Some(s@)
        } else {
            None
        }),
{
    if text::str_eq(s, "buy") {
        Some("buy")
    } else if text::str_eq(s, "sell") {
        Some("sell")
    } else {
        None
    }
}

fn static_status(s: &str) -> (r: Option<&'static str>)
    ensures
        opt_text(r) == (if known_status(s@) {
            Some(s@)
        } else {
            None
        }),
{
    if text::str_eq(s, "PENDING") {
        Some("PENDING")
    } else if text::str_eq(s, "TRADING") {
        Some("TRADING")
    } else if text::str_eq(s, "COMPLETED") {
        Some("COMPLETED")
    } else if text::str_eq(s, "CANCELED") {
        Some("CANCELED")
    } else if text::str_eq(s, "REJECTED") {
        Some("REJECTED")
    } else {
        None
    }
}

/// The row that a cached order makes. Nothing is made up: where a required
/// field is missing or unreadable there is no row.
pub open spec fn backfill_of(id: i64, m: Map<Seq<char>, Seq<char>>) -> Option<UpsertView> {
    let user_id = redis_store::number_field(m, "user_id"@);
    let symbol = redis_store::text_field(m, "symbol"@);
    let side = redis_store::text_field(m, "side"@);
    let order_type = redis_store::text_field(m, "order_type"@);
    let status = redis_store::text_field(m, "status"@);
    let qty = redis_store::decimal_field(m, "qty"@);
    let filled = redis_store::decimal_field(m, "filled"@);
    let freeze_price = redis_store::decimal_field(m, "freeze_price"@);
    let created = redis_store::number_field(m, "created_at_ms"@);
    let price = redis_store::decimal_field(m, "price"@);
    if user_id is Some && symbol is Some && side is Some && order_type is Some && status is Some
        && qty is Some && filled is Some && freeze_price is Some && created is Some && known_side(
        side->0,
    ) && known_status(status->0) && storable_time(created->0) {
        Some(
            UpsertView {
                id,
                user_id: user_id->0,
                symbol: symbol->0,
                side: side->0,
                order_type: order_type->0,
                price_atoms: if price == Some(0i64) {
                    None
                } else {
                    price
                },
                quantity_atoms: qty->0,
                filled_atoms: filled->0,
                status: status->0,
                freeze_price_atoms: freeze_price,
                client_order_id: redis_store::filled_field(m, "client_order_id"@),
                created_at_ms: created->0,
            },
        )
    } else {
        None
    }
}

pub open spec fn row_option(r: Option<UpsertRow>) -> Option<UpsertView> {
    match r {
        Some(row) => Some(row.view()),
        None => None,
    }
}

fn backfill_row(id: i64, fields: &Vec<(String, String)>) -> (r: Option<UpsertRow>)
    ensures
        row_option(r) == backfill_of(
            id,
            redis_store::pair_map(redis_store::pair_views(fields@)),
        ),
{
    let user_id = redis_store::find_number(fields, "user_id")?;
    let symbol = redis_store::find_field(fields, "symbol")?;
    let side = redis_store::find_field(fields, "side")?;
    let order_type = redis_store::find_field(fields, "order_type")?;
    let status = redis_store::find_field(fields, "status")?;
    let quantity_atoms = redis_store::find_amount(fields, "qty")?;
    let filled_atoms = redis_store::find_amount(fields, "filled")?;
    let freeze_price = redis_store::find_amount(fields, "freeze_price")?;
    let created_at_ms = redis_store::find_number(fields, "created_at_ms")?;
    let side = static_side(side)?;
    let status = static_status(status)?;
    let price_atoms = match redis_store::find_amount(fields, "price") {
        Some(p) => if p == 0 {
            None
        } else {
            Some(p)
        },
        None => None,
    };
    let client_order_id = match redis_store::find_field(fields, "client_order_id") {
        Some(c) => if c.is_empty() {
            None
        } else {
            Some(text::owned(c))
        },
        None => None,
    };
    if !has_storable_time(created_at_ms) {
        return None;
    }
    Some(
        UpsertRow {
            id,
            user_id,
            symbol: text::owned(symbol),
            side,
            order_type: text::owned(order_type),
            price_atoms,
            quantity_atoms,
            filled_atoms,
            status,
            freeze_price_atoms: Some(freeze_price),
            client_order_id,
            created_at_ms,
        },
    )
}

/// The rows that cached orders make, and how many could not be read.
pub open spec fn backfill_rows(ids: Seq<i64>, hashes: Seq<Map<Seq<char>, Seq<char>>>) -> (
    Seq<UpsertView>,
    nat,
)
    decreases ids.len(),
{
    if ids.len() == 0 || hashes.len() == 0 {
        (seq![], 0)
    } else if ids.len() > hashes.len() {
        backfill_rows(ids.drop_last(), hashes)
    } else {
        let (rows, skipped) = backfill_rows(ids.drop_last(), hashes);
        match backfill_of(ids.last(), hashes[ids.len() - 1]) {
            Some(row) => (rows.push(row), skipped),
            None => (rows, skipped + 1),
        }
    }
}

proof fn lemma_unmatched_backfill(ids: Seq<i64>, hashes: Seq<Map<Seq<char>, Seq<char>>>, n: int)
    requires
        0 <= n <= ids.len(),
        n == ids.len() || n == hashes.len(),
    ensures
        backfill_rows(ids.take(n), hashes) == backfill_rows(ids, hashes),
    decreases ids.len(),
{
    if n == ids.len() {
        assert(ids.take(n) =~= ids);
    } else {
        lemma_unmatched_backfill(ids.drop_last(), hashes, n);
        assert(ids.drop_last().take(n) =~= ids.take(n));
    }
}

/// Stages the orders that the relational store lacks, from their cached hashes.
/// The rows written are counted once they are.
pub fn backfill_from_redis(
    scanned: u64,
    missing: &Vec<i64>,
    hashes: &Vec<Vec<(String, String)>>,
) -> (r: (PgWriteBatch, BackfillStats))
    ensures
        r.0.view() == (BatchView {
            upserts: backfill_rows(missing@, redis_store::hash_views(hashes@)).0,
            ..BatchView::fresh()
        }),
        r.1.redis_orders_scanned == scanned,
        r.1.missing_in_pg == missing@.len(),
        r.1.skipped_decode == backfill_rows(missing@, redis_store::hash_views(hashes@)).1,
        r.1.backfilled == 0,
{
    let mut batch = PgWriteBatch::new();
    let mut skipped: u64 = 0;
    let ghost maps = redis_store::hash_views(hashes@);
    proof {
        assert(missing@.take(0) =~= seq![]);
    }
    let mut i: usize = 0;
    while i < missing.len() && i < hashes.len()
        invariant
            i <= missing@.len(),
            i <= hashes@.len(),
            maps == redis_store::hash_views(hashes@),
            batch.view() == (BatchView {
                upserts: backfill_rows(missing@.take(i as int), maps).0,
                ..BatchView::fresh()
            }),
            skipped == backfill_rows(missing@.take(i as int), maps).1,
            skipped <= i,
        decreases missing@.len() - i,
    {
        proof {
            assert(missing@.take(i + 1).drop_last() =~= missing@.take(i as int));
            assert(missing@.take(i + 1).last() == missing@[i as int]);
        }
        let found = backfill_row(missing[i], &hashes[i]);
        proof {
            assert(row_option(found) == backfill_of(missing@[i as int], maps[i as int]));
        }
        match found {
            Some(row) => {
                batch.push_row(row);
            },
            None => {
                skipped = skipped + 1;
            },
        }
        i = i + 1;
    }
    proof {
        lemma_unmatched_backfill(missing@, maps, i as int);
    }
    let stats = BackfillStats {
        redis_orders_scanned: scanned,
        missing_in_pg: missing.len() as u64,
        backfilled: 0,
        skipped_decode: skipped,
    };
    (batch, stats)
}

/// The sequence numbers in checkpoint rows, by publisher.
pub open spec fn checkpoint_floors(rows: Seq<(i32, i64)>) -> Map<u16, u64>
    decreases rows.len(),
{
    if rows.len() == 0 {
        Map::empty()
    } else {
        let (id, seq) = rows.last();
        checkpoint_floors(rows.drop_last()).insert(
            id as u16,
            if seq < 0 {
                0
            } else {
                seq as u64
            },
        )
    }
}

/// Reads checkpoint rows; a negative sequence number counts as none.
pub fn load_checkpoints(rows: &Vec<(i32, i64)>) -> (r: HashMap<u16, u64>)
    ensures
        r@ == checkpoint_floors(rows@),
{
    broadcast use vstd::std_specs::hash::group_hash_axioms;

    let mut out: HashMap<u16, u64> = HashMap::new();
    let mut i: usize = 0;
    proof {
        assert(rows@.take(0) =~= seq![]);
        assert(out@ =~= Map::empty());
    }
    while i < rows.len()
        invariant
            i <= rows@.len(),
            out@ == checkpoint_floors(rows@.take(i as int)),
        decreases rows@.len() - i,
    {
        broadcast use vstd::std_specs::hash::group_hash_axioms;

        proof {
            assert(rows@.take(i + 1).drop_last() =~= rows@.take(i as int));
            assert(rows@.take(i + 1).last() == rows@[i as int]);
        }
        let (id, seq) = rows[i];
        out.insert(
            id as u16,
            if seq < 0 {
                0
            } else {
                seq as u64
            },
        );
        i = i + 1;
    }
    proof {
        assert(rows@.take(i as int) =~= rows@);
    }
    out
}

/// The ids that `known` does not hold, in order.
pub open spec fn absent(ids: Seq<i64>, known: Seq<i64>) -> Seq<i64>
    decreases ids.len(),
{
    if ids.len() == 0 {
        seq![]
    } else {
        let rest = absent(ids.drop_last(), known);
        if known.contains(ids.last()) {
            rest
        } else {
            rest.push(ids.last())
        }
    }
}

/// The ids that `known` does not hold.
pub fn missing_ids(ids: &Vec<i64>, known: &Vec<i64>) -> (r: Vec<i64>)
    ensures
        r@ == absent(ids@, known@),
{
    broadcast use vstd::std_specs::hash::group_hash_axioms;

    let mut set: HashSet<i64> = HashSet::new();
    let mut k: usize = 0;
    while k < known.len()
        invariant
            k <= known@.len(),
            forall|x: i64| #[trigger]
                set@.contains(x) <==> exists|j: int| 0 <= j < k && #[trigger] known@[j] == x,
        decreases known@.len() - k,
    {
        broadcast use vstd::std_specs::hash::group_hash_axioms;

        let ghost before = set@;
        set.insert(known[k]);
        proof {
            assert forall|x: i64| #[trigger] set@.contains(x) <==> exists|j: int|
                0 <= j < k + 1 && #[trigger] known@[j] == x by {
                if before.contains(x) {
                    let j = choose|j: int| 0 <= j < k && #[trigger] known@[j] == x;
                    assert(known@[j] == x);
                }
                assert(known@[k as int] == known@[k as int]);
                if exists|j: int| 0 <= j < k + 1 && #[trigger] known@[j] == x {
                    let j = choose|j: int| 0 <= j < k + 1 && #[trigger] known@[j] == x;
                    if j < k {
                        assert(exists|m: int| 0 <= m < k && #[trigger] known@[m] == x);
                    }
                }
            }
        }
        k = k + 1;
    }
    let mut out: Vec<i64> = Vec::new();
    let mut i: usize = 0;
    while i < ids.len()
        invariant
            i <= ids@.len(),
            out@ == absent(ids@.take(i as int), known@),
            forall|x: i64| #[trigger]
                set@.contains(x) <==> exists|j: int|
                    0 <= j < known@.len() && #[trigger] known@[j] == x,
        decreases ids@.len() - i,
    {
        broadcast use vstd::std_specs::hash::group_hash_axioms;

        let id = ids[i];
        proof {
            assert(ids@.take(i + 1).drop_last() =~= ids@.take(i as int));
            assert(set@.contains(id) <==> known@.contains(id));
        }
        if !set.contains(&id) {
            out.push(id);
        }
        i = i + 1;
    }
    proof {
        assert(ids@.take(i as int) =~= ids@);
    }
    out
}

/// Exactly the ids that are not known are missing.
pub proof fn law_missing_ids_are_exact(ids: Seq<i64>, known: Seq<i64>, id: i64)
    ensures
        absent(ids, known).contains(id) <==> ids.contains(id) && !known.contains(id),
    decreases ids.len(),
{
    if ids.len() > 0 {
        let d = ids.drop_last();
        let rest = absent(d, known);
        let all = absent(ids, known);
        law_missing_ids_are_exact(d, known, id);
        if ids.contains(id) {
            let i = choose|i: int| 0 <= i < ids.len() && ids[i] == id;
            if i < d.len() {
                assert(d[i] == id);
            }
        }
        if d.contains(id) {
            let i = choose|i: int| 0 <= i < d.len() && d[i] == id;
            assert(ids[i] == id);
        }
        assert(ids[ids.len() - 1] == ids.last());
        if !known.contains(ids.last()) {
            if rest.contains(id) {
                let i = choose|i: int| 0 <= i < rest.len() && rest[i] == id;
                assert(all[i] == id);
            }
            assert(all[rest.len() as int] == ids.last());
            if all.contains(id) {
                let i = choose|i: int| 0 <= i < all.len() && all[i] == id;
                if i < rest.len() {
                    assert(rest[i] == id);
                }
            }
        }
    }
}

/// A stored order row says what its frame said. A price of nothing and an empty
/// client order id are left out, and a frame is skipped for nothing but an
/// unknown status, a date that cannot be stored, a name that is missing or an
/// amount that cannot be read.
pub proof fn law_order_row_says_what_its_frame_said(p: OrderUpsertPayload)
    ensures
        match upsert_of(p) {
            Ok(row) => {
                &&& row.id == p.id && row.user_id == p.user_id && row.created_at_ms
                    == p.created_at_ms
                &&& row.side == (if p.side == 0 {
                    "buy"@
                } else {
                    "sell"@
                })
                &&& row.symbol == crate::persist_event::unpacked(p.symbol@)
                &&& row.order_type == crate::persist_event::unpacked(p.order_type@)
                &&& p.qty_atoms == Some(row.quantity_atoms)
                &&& p.filled_atoms == Some(row.filled_atoms)
                &&& p.price_atoms == Some(or_zero(row.price_atoms)) && row.price_atoms != Some(0i64)
                &&& row.freeze_price_atoms == p.freeze_price_atoms
                &&& text::text_or(row.client_order_id, ""@) == crate::persist_event::unpacked(
                    p.client_order_id@,
                )
                &&& row.client_order_id != Some(""@)
                &&& 0 <= p.created_at_ms <= crate::persist_event::MAX_DATE_MS
                &&& p.status < 5
            },
            Err(SkipReason::UpsertBadStatus) => p.status >= 5,
            Err(SkipReason::UpsertBadTimestamp) => p.created_at_ms < 0 || p.created_at_ms
                > crate::persist_event::MAX_DATE_MS,
            Err(SkipReason::UpsertEmptyString) => crate::persist_event::unpacked(p.symbol@).len()
                == 0 || crate::persist_event::unpacked(p.order_type@).len() == 0,
            Err(SkipReason::AmountAtomsInvalid) => p.qty_atoms is None || p.filled_atoms is None
                || p.price_atoms is None,
            Err(_) => false,
        },
{
    reveal_strlit("");
    if crate::persist_event::unpacked(p.client_order_id@).len() == 0 {
        assert(crate::persist_event::unpacked(p.client_order_id@) =~= ""@);
    }
}

/// The other rows say what their frames said too.
pub proof fn law_rows_say_what_their_frames_said(
    fill: OrderFillUpdatePayload,
    account: AccountSetPayload,
    trade: TradeInsertPayload,
    event: MatchingEventPayload,
)
    ensures
        match fill_of(fill) {
            Ok(row) => row.id == fill.id && fill.filled_atoms == Some(row.filled_atoms)
                && fill.status < 5,
            Err(e) => fill.status >= 5 || fill.filled_atoms is None,
        },
        match account_of(account) {
            Ok(row) => {
                &&& row.user_id == account.user_id
                &&& row.asset == crate::persist_event::unpacked(account.asset@)
                &&& account.balance_atoms != 0 ==> row.balance_atoms == account.balance_atoms
                &&& account.balance_atoms == 0 ==> Some(row.balance_atoms)
                    == account.legacy_balance_atoms
                &&& account.frozen_atoms != 0 ==> row.frozen_atoms == account.frozen_atoms
                &&& account.frozen_atoms == 0 ==> Some(row.frozen_atoms)
                    == account.legacy_frozen_atoms
            },
            Err(e) => crate::persist_event::unpacked(account.asset@).len() == 0 || (
            account.balance_atoms == 0 && account.legacy_balance_atoms is None) || (
            account.frozen_atoms == 0 && account.legacy_frozen_atoms is None),
        },
        match trade_of(trade) {
            Ok(row) => {
                &&& row.buy_order_id == trade.buy_order_id
                &&& row.sell_order_id == trade.sell_order_id
                &&& row.symbol == crate::persist_event::unpacked(trade.symbol@)
                &&& trade.price_atoms == Some(row.price_atoms)
                &&& trade.qty_atoms == Some(row.qty_atoms)
                &&& row.created_at_ms == trade.ts_ms
                &&& 0 <= trade.ts_ms <= crate::persist_event::MAX_DATE_MS
            },
            Err(e) => crate::persist_event::unpacked(trade.symbol@).len() == 0 || trade.ts_ms < 0
                || trade.ts_ms > crate::persist_event::MAX_DATE_MS || trade.price_atoms is None
                || trade.qty_atoms is None,
        },
        match event_of(event) {
            Ok(row) => {
                &&& row.sequence == event.sequence && row.ts_ns == event.ts_ns
                &&& row.response_stream_id == event.response_stream_id
                &&& row.event_kind == event.event_kind
                &&& row.order_id == event.order_id
                &&& row.client_order_id == event.client_order_id
                &&& row.participant_id == event.participant_id
                &&& row.counterparty_order_id == event.counterparty_order_id
                &&& row.symbol == crate::persist_event::unpacked(event.symbol@)
                &&& row.price_ticks == event.price_ticks
                &&& row.quantity_lots == event.quantity_lots
                &&& row.remaining_lots == event.remaining_lots
            },
            Err(e) => crate::persist_event::unpacked(event.symbol@).len() == 0 || event.sequence
                > i64::MAX || event.ts_ns > i64::MAX,
        },
{
}

/// Every frame leaves one trace: it becomes one row, or it is counted as skipped
/// under one reason, or it is counted as a repetition.
pub proof fn law_every_frame_leaves_one_trace(v: BatchView, frame: PersistFrame)
    requires
        v.has_room(),
    ensures
        ({
            let (w, staged) = pushed(v, frame);
            &&& w.rows() + w.counts.sum() + w.duplicates == v.rows() + v.counts.sum()
                + v.duplicates + 1
            &&& staged <==> w.rows() == v.rows() + 1
            &&& w.skipped - v.skipped == w.counts.sum() - v.counts.sum()
            &&& w.applied == v.applied
        }),
{
    let w = v.admitted(frame.publisher_id, frame.seq);
    assert(w.rows() == v.rows() && w.counts == v.counts && w.skipped == v.skipped && w.applied
        == v.applied);
    if v.admits(frame.publisher_id, frame.seq) {
        assert(w.duplicates == v.duplicates);
        lemma_staged_once(w, frame.body);
    }
}

proof fn lemma_skip_counts_one(v: BatchView, reason: SkipReason)
    requires
        v.can_skip(),
    ensures
        v.skip(reason).counts.sum() == v.counts.sum() + 1,
        v.skip(reason).skipped == v.skipped + 1,
{
    match reason {
        SkipReason::UnknownKind => {},
        SkipReason::UpsertBadStatus => {},
        SkipReason::UpsertBadTimestamp => {},
        SkipReason::UpsertEmptyString => {},
        SkipReason::FillBadStatus => {},
        SkipReason::AccountEmptyAsset => {},
        SkipReason::TradeEmptySymbol => {},
        SkipReason::TradeBadTimestamp => {},
        SkipReason::MatchingEmptySymbol => {},
        SkipReason::MatchingBadTimestamp => {},
        SkipReason::PayloadDecodeFailed => {},
        SkipReason::AmountAtomsInvalid => {},
    }
}

proof fn lemma_staged_once(v: BatchView, body: PersistBody)
    requires
        v.can_skip(),
    ensures
        ({
            let (w, kept) = staged(v, body);
            &&& w.duplicates == v.duplicates && w.applied == v.applied
            &&& kept ==> w.rows() == v.rows() + 1 && w.counts == v.counts && w.skipped == v.skipped
            &&& !kept ==> w.rows() == v.rows() && w.counts.sum() == v.counts.sum() + 1 && w.skipped
                == v.skipped + 1
        }),
{
    let (w, kept) = staged(v, body);
    if !kept {
        let reason = choose|reason: SkipReason| w == #[trigger] v.skip(reason);
        assert(w == v.skip(reason));
        lemma_skip_counts_one(v, reason);
    }
}

/// A publisher's numbers follow one another. A number already reached is a
/// repetition, the next one is in order, and one further on leaves as many gaps
/// as it passes over; a jump that is too far is a restart and leaves none.
pub proof fn law_gaps_are_the_numbers_passed_over(v: BatchView, publisher: u16, seq: u64)
    requires
        v.has_room(),
        seq > 0,
    ensures
        ({
            let w = v.admitted(publisher, seq);
            let reached = v.reached(publisher);
            &&& v.admits(publisher, seq) <==> seq > reached
            &&& seq <= reached ==> w.duplicates == v.duplicates + 1 && w.gaps == v.gaps
                && w.restarts == v.restarts && w.reached(publisher) == reached
            &&& seq > reached ==> w.duplicates == v.duplicates && w.reached(publisher) == seq
            &&& seq == reached + 1 ==> w.gaps == v.gaps && w.restarts == v.restarts
            &&& reached > 0 && seq > reached && seq - reached <= 0x100_0000_0000 ==> w.gaps == v.gaps
                + (seq - reached - 1) && w.restarts == v.restarts
            &&& reached > 0 && seq > reached && seq - reached > 0x100_0000_0000 ==> w.gaps == v.gaps
                && w.restarts == v.restarts + 1
            &&& reached == 0 ==> w.gaps == v.gaps && w.restarts == v.restarts
        }),
{
}

/// What has been committed is remembered: the higher of what was applied before
/// and what the batch held.
pub proof fn law_commit_remembers_the_highest(v: BatchView, publisher: u16)
    ensures
        ({
            let w = v.committed();
            &&& w.rows() == 0
            &&& w.pending == Map::<u16, u64>::empty()
            &&& w.reached(publisher) >= v.reached(publisher)
            &&& !v.pending.contains_key(publisher) ==> w.reached(publisher) == v.reached(publisher)
            &&& v.pending.contains_key(publisher) && v.applied.contains_key(publisher)
                ==> w.reached(publisher) == v.pending[publisher] || w.reached(publisher)
                == v.applied[publisher]
            &&& v.pending.contains_key(publisher) && !v.applied.contains_key(publisher)
                ==> w.reached(publisher) == v.pending[publisher]
        }),
{
}

/// Of the checkpoints of a publisher the last one counts; a negative one counts
/// as none reached.
pub proof fn law_last_checkpoint_counts(rows: Seq<(i32, i64)>, k: int)
    requires
        0 <= k < rows.len(),
        0 <= rows[k].0 <= u16::MAX,
        forall|j: int| k < j < rows.len() ==> (#[trigger] rows[j]).0 as u16 != rows[k].0 as u16,
    ensures
        ({
            let floors = checkpoint_floors(rows);
            &&& floors.contains_key(rows[k].0 as u16)
            &&& rows[k].1 >= 0 ==> floors[rows[k].0 as u16] == rows[k].1
            &&& rows[k].1 < 0 ==> floors[rows[k].0 as u16] == 0
        }),
    decreases rows.len(),
{
    if k < rows.len() - 1 {
        let d = rows.drop_last();
        assert forall|j: int| k < j < d.len() implies (#[trigger] d[j]).0 as u16 != d[k].0 as u16 by {
            assert(d[j] == rows[j]);
        }
        law_last_checkpoint_counts(d, k);
        assert(rows[rows.len() - 1].0 as u16 != rows[k].0 as u16);
    }
}

/// Every missing order is put back, or counted where its record cannot be read;
/// those put back stand in the order of their ids.
pub proof fn law_backfill_accounts_for_every_order(
    ids: Seq<i64>,
    hashes: Seq<Map<Seq<char>, Seq<char>>>,
    row: UpsertView,
)
    requires
        ids.len() == hashes.len(),
    ensures
        backfill_rows(ids, hashes).0.len() + backfill_rows(ids, hashes).1 == ids.len(),
        backfill_rows(ids, hashes).0.contains(row) <==> exists|i: int|
            0 <= i < ids.len() && #[trigger] backfill_of(ids[i], hashes[i]) == Some(row),
{
    lemma_backfill_prefix(ids, hashes, row);
}

proof fn lemma_backfill_prefix(
    ids: Seq<i64>,
    hashes: Seq<Map<Seq<char>, Seq<char>>>,
    row: UpsertView,
)
    requires
        ids.len() <= hashes.len(),
    ensures
        backfill_rows(ids, hashes).0.len() + backfill_rows(ids, hashes).1 == ids.len(),
        backfill_rows(ids, hashes).0.contains(row) <==> exists|i: int|
            0 <= i < ids.len() && #[trigger] backfill_of(ids[i], hashes[i]) == Some(row),
    decreases ids.len(),
{
    if ids.len() > 0 {
        let d = ids.drop_last();
        let n = ids.len() - 1;
        lemma_backfill_prefix(d, hashes, row);
        let rest = backfill_rows(d, hashes).0;
        let all = backfill_rows(ids, hashes).0;
        if rest.contains(row) {
            let j = choose|j: int| 0 <= j < rest.len() && rest[j] == row;
            assert(all[j] == row);
            let i = choose|i: int|
                0 <= i < d.len() && #[trigger] backfill_of(d[i], hashes[i]) == Some(row);
            assert(backfill_of(ids[i], hashes[i]) == Some(row));
        }
        if backfill_of(ids[n], hashes[n]) == Some(row) {
            assert(all[all.len() - 1] == row);
        }
        if all.contains(row) && !rest.contains(row) {
            let j = choose|j: int| 0 <= j < all.len() && all[j] == row;
            assert(j < rest.len() ==> rest[j] == row);
            assert(backfill_of(ids[n], hashes[n]) == Some(row));
        }
        if exists|i: int| 0 <= i < ids.len() && #[trigger] backfill_of(ids[i], hashes[i]) == Some(row) {
            let i = choose|i: int|
                0 <= i < ids.len() && #[trigger] backfill_of(ids[i], hashes[i]) == Some(row);
            if i < n {
                assert(backfill_of(d[i], hashes[i]) == Some(row));
            }
        }
    }
}

/// A new batch holds nothing and has counted nothing.
pub proof fn law_fresh_batch_is_empty(publisher: u16, seq: u64)
    ensures
        BatchView::fresh().rows() == 0,
        BatchView::fresh().counts.sum() == 0,
        BatchView::fresh().skipped == 0 && BatchView::fresh().duplicates == 0,
        BatchView::fresh().gaps == 0 && BatchView::fresh().restarts == 0,
        BatchView::fresh().admits(publisher, seq),
        BatchView::fresh().has_room(),
{
}

} // verus!
