//! Decisions behind the REST interface: who may call, which requests are
//! taken, and what an answer or a refusal says.
use crate::counter_shard;
use crate::counter_shard::{is_user_owned_by_desk, owner_shard_for_user_id};
use crate::maps::Symbol;
use crate::models;
use crate::models::DbOrder;
use crate::money;
use crate::money::{AccountBalance, AmountAtoms};
use crate::order::{Side, TimeInForce};
use crate::order_entry;
use crate::order_entry::{AccountCache, ReserveError};
use crate::order_state;
use crate::order_state::{db_status_from_update_kind, DbOrderStatus};
use crate::persist_event;
use crate::persist_event::{
    pack_str, AccountSetPayload, OrderUpsertPayload, PersistBody, PersistFrame,
};
use crate::pg_store;
use crate::redis_store;
use crate::risk;
use crate::risk::engine::RiskEngine;
use crate::risk::types::{LiquidationEvent, PositionRiskState, PositionSide};
use crate::symbol_rules;
use crate::symbol_rules::{FixedOrderShape, SymbolRules};
use crate::text;
use crate::trigger::{PendingTrigger, TriggerWhen};
use crate::user_service;
use crate::user_service::{AuthError, Claims};
use crate::ws_handler;
use std::collections::HashSet;
use vstd::prelude::*;

verus! {

pub const BAD_REQUEST: u16 = 400;

pub const UNAUTHORIZED: u16 = 401;

pub const FORBIDDEN: u16 = 403;

pub const NOT_FOUND: u16 = 404;

pub const CONFLICT: u16 = 409;

pub const MISDIRECTED_REQUEST: u16 = 421;

pub const TOO_MANY_REQUESTS: u16 = 429;

pub const INTERNAL_SERVER_ERROR: u16 = 500;

pub const BAD_GATEWAY: u16 = 502;

pub const SERVICE_UNAVAILABLE: u16 = 503;

pub const GATEWAY_TIMEOUT: u16 = 504;

/// A refusal: the status of the answer and what it says.
#[derive(Debug)]
pub struct ApiError {
    pub status: u16,
    pub message: String,
}

impl ApiError {
    pub open spec fn view(self) -> (u16, Seq<char>) {
        (self.status, self.message@)
    }
}

pub open spec fn verdict<T>(r: Result<T, ApiError>) -> Result<T, (u16, Seq<char>)> {
    match r {
        Ok(v) => Ok(v),
        Err(e) => Err(e.view()),
    }
}

fn refuse<T>(status: u16, message: &str) -> (r: Result<T, ApiError>)
    ensures
        verdict(r) == Err::<T, (u16, Seq<char>)>((status, message@)),
{
    Err(ApiError { status, message: text::owned(message) })
}

/// The token of an authorization header.
pub open spec fn bearer(header: Option<Seq<char>>) -> Option<Seq<char>> {
    match header {
        Some(h) => text::behind(h, "Bearer "@),
        None => None,
    }
}

pub fn bearer_token(header: Option<&str>) -> (r: Option<String>)
    ensures
        text::opt_string(r) == bearer(text::opt_str(header)),
{
    match header {
        Some(h) => text::strip_prefix(h, "Bearer "),
        None => None,
    }
}

/// The least length of a service token, in bytes.
pub const MIN_SERVICE_TOKEN_LEN: usize = 32;

/// Whether a service may call: only with the token that is set up for it, and
/// only where that token is long enough.
pub open spec fn authorized(expected: Option<Seq<char>>, header: Option<Seq<char>>) -> bool {
    match expected {
        Some(e) => vstd::utf8::encode_utf8(e).len() >= MIN_SERVICE_TOKEN_LEN && bearer(header)
            == Some(e),
        None => false,
    }
}

pub fn bearer_authorized(expected: Option<&str>, header: Option<&str>) -> (r: bool)
    ensures
        r == authorized(text::opt_str(expected), text::opt_str(header)),
{
    match expected {
        Some(e) => {
            if e.as_bytes().len() < MIN_SERVICE_TOKEN_LEN {
                return false;
            }
            match bearer_token(header) {
                Some(t) => text::str_eq(t.as_str(), e),
                None => false,
            }
        },
        None => false,
    }
}

pub open spec fn claims_verdict(r: Result<Claims, ApiError>) -> Result<
    (i64, Seq<char>, u64),
    (u16, Seq<char>),
> {
    match r {
        Ok(c) => Ok((c.sub, c.email@, c.exp)),
        Err(e) => Err(e.view()),
    }
}

/// Admits a user by what the token check said, unless the user's tokens were
/// revoked.
pub fn admit_claims(checked: Result<Claims, AuthError>, revoked: &HashSet<i64>) -> (r: Result<
    Claims,
    ApiError,
>)
    ensures
        claims_verdict(r) == (match user_service::claims_result(checked) {
            Err(e) => Err((UNAUTHORIZED, e.text())),
            Ok(c) => if revoked@.contains(c.0) {
                Err((UNAUTHORIZED, "token revoked"@))
            } else {
                Ok(c)
            },
        }),
{
    broadcast use vstd::std_specs::hash::group_hash_axioms;

    match checked {
        Err(e) => {
            let message = e.message();
            Err(ApiError { status: UNAUTHORIZED, message: text::owned(message) })
        },
        Ok(claims) => {
            if revoked.contains(&claims.sub) {
                refuse(UNAUTHORIZED, "token revoked")
            } else {
                Ok(claims)
            }
        },
    }
}

/// Who calls, by the authorization header. Whether a token has expired depends
/// on the clock; whom it admits is what it says. A caller with a token is
/// refused for the token itself, or because the user it names was revoked.
pub fn auth_claims(header: Option<&str>, secret: &[u8], revoked: &HashSet<i64>) -> (r: Result<
    Claims,
    ApiError,
>)
    ensures
        bearer(text::opt_str(header)) is None ==> claims_verdict(r) == Err::<
            (i64, Seq<char>, u64),
            (u16, Seq<char>),
        >((UNAUTHORIZED, "Missing token"@)),
        bearer(text::opt_str(header)) matches Some(token) ==> (r matches Err(e) ==> {
            ||| e.view() == (UNAUTHORIZED, AuthError::InvalidToken.text())
            ||| e.view() == (UNAUTHORIZED, "token revoked"@) && (user_service::token_claims(
                token,
                secret@,
            ) matches Some(c) && (c.0 matches Some(sub) && revoked@.contains(sub)))
        }),
        r matches Ok(c) ==> {
            &&& !revoked@.contains(c.sub)
            &&& bearer(text::opt_str(header)) matches Some(token)
            &&& user_service::token_claims(token, secret@) == Some(
                (Some(c.sub), Some(c.email@), Some(c.exp)),
            )
        },
{
    match bearer_token(header) {
        Some(token) => admit_claims(user_service::verify_token(token.as_str(), secret), revoked),
        None => refuse(UNAUTHORIZED, "Missing token"),
    }
}

/// A user whose account another shard owns.
#[derive(Debug, Clone, Copy, PartialEq, Eq, Structural)]
pub struct Misrouted {
    pub user_id: i64,
    pub desk_id: u16,
    pub owner_shard_id: u16,
}

/// Whether a desk may touch a user's account.
pub open spec fn owned(user_id: i64, desk_id: u16) -> bool {
    counter_shard::owner_shard(user_id as int) == desk_id % counter_shard::COUNTER_SHARD_COUNT
}

/// Lets only the desk of the owning shard touch a user's account; others are
/// told the owner.
pub fn ensure_user_owned_by_this_desk(user_id: i64, desk_id: u16) -> (r: Result<(), Misrouted>)
    ensures
        r == (if owned(user_id, desk_id) {
            Ok::<(), Misrouted>(())
        } else {
            Err(
                Misrouted {
                    user_id,
                    desk_id,
                    owner_shard_id: counter_shard::owner_shard(user_id as int) as u16,
                },
            )
        }),
{
    if is_user_owned_by_desk(user_id, desk_id) {
        Ok(())
    } else {
        Err(Misrouted { user_id, desk_id, owner_shard_id: owner_shard_for_user_id(user_id) })
    }
}

/// The most users that can have a channel of their own.
pub const USER_TX_CAPACITY: usize = 1_048_576;

/// The slot of a user's channel; ids out of range have none.
pub fn user_slot(user_id: i64) -> (r: Option<usize>)
    ensures
        r == (if 0 < user_id < USER_TX_CAPACITY {
            Some(user_id as usize)
        } else {
            None
        }),
{
    if user_id > 0 && user_id < USER_TX_CAPACITY as i64 {
        Some(user_id as usize)
    } else {
        None
    }
}

/// An order as it comes in.
#[derive(Debug)]
pub struct PlaceOrderRequest {
    pub symbol: String,
    pub side: String,
    pub order_type: String,
    pub price: Option<AmountAtoms>,
    pub quantity: AmountAtoms,
    pub client_order_id: Option<String>,
    pub reduce_only: bool,
}

/// What is checked before anything is looked up: the user's rate, the owning
/// desk, whether the symbol is halted, and the order's shape. An order that
/// only reduces a position passes a halt.
pub open spec fn gate_of(
    throttled: Option<Seq<char>>,
    user_id: i64,
    desk_id: u16,
    halted: bool,
    req: PlaceOrderRequest,
) -> Result<FixedOrderShape, (u16, Seq<char>)> {
    match throttled {
        Some(reason) => Err((TOO_MANY_REQUESTS, reason)),
        None => if !owned(user_id, desk_id) {
            Err((MISDIRECTED_REQUEST, "wrong counter shard"@))
        } else if halted && !req.reduce_only {
            Err((SERVICE_UNAVAILABLE, "trading halted for this symbol"@))
        } else {
            match symbol_rules::shape_of(req.symbol@, req.order_type@, req.price, req.quantity) {
                Ok(shape) => Ok(shape),
                Err(reason) => Err((BAD_REQUEST, reason)),
            }
        },
    }
}

/// Checks an order at the door. `throttled` is the reason of the rate limiter,
/// where it turned the user away.
pub fn check_gate(
    throttled: Option<&str>,
    user_id: i64,
    desk_id: u16,
    halted: bool,
    req: &PlaceOrderRequest,
) -> (r: Result<FixedOrderShape, ApiError>)
    ensures
        verdict(r) == gate_of(text::opt_str(throttled), user_id, desk_id, halted, *req),
{
    if let Some(reason) = throttled {
        return refuse(TOO_MANY_REQUESTS, reason);
    }
    if !is_user_owned_by_desk(user_id, desk_id) {
        return refuse(MISDIRECTED_REQUEST, "wrong counter shard");
    }
    if halted && !req.reduce_only {
        return refuse(SERVICE_UNAVAILABLE, "trading halted for this symbol");
    }
    match symbol_rules::normalize_order_shape(
        req.symbol.as_str(),
        req.order_type.as_str(),
        req.price,
        req.quantity,
    ) {
        Ok(shape) => Ok(shape),
        Err(reason) => refuse(BAD_REQUEST, reason),
    }
}

/// How an order is entered.
#[derive(Debug)]
pub struct Entry {
    pub side: Side,
    pub time_in_force: TimeInForce,
    pub base: String,
    pub quote: String,
    /// The price that backs what is set aside for a buy; zero for a sell.
    pub freeze_price: AmountAtoms,
    pub freeze_asset: String,
    pub freeze_amount: AmountAtoms,
}

pub struct EntryView {
    pub side: Side,
    pub time_in_force: TimeInForce,
    pub base: Seq<char>,
    pub quote: Seq<char>,
    pub freeze_price: AmountAtoms,
    pub freeze_asset: Seq<char>,
    pub freeze_amount: AmountAtoms,
}

impl Entry {
    pub open spec fn view(self) -> EntryView {
        EntryView {
            side: self.side,
            time_in_force: self.time_in_force,
            base: self.base@,
            quote: self.quote@,
            freeze_price: self.freeze_price,
            freeze_asset: self.freeze_asset@,
            freeze_amount: self.freeze_amount,
        }
    }
}

pub open spec fn entry_verdict(r: Result<Entry, ApiError>) -> Result<EntryView, (u16, Seq<char>)> {
    match r {
        Ok(e) => Ok(e.view()),
        Err(e) => Err(e.view()),
    }
}

/// How an order of a checked shape is entered, or why it is refused. `engines`
/// tells whether engines run within this process, `engine` whether one of them
/// is for the symbol.
pub open spec fn entry_of(
    req: PlaceOrderRequest,
    engines: bool,
    engine: bool,
    best: Option<AmountAtoms>,
) -> Result<EntryView, (u16, Seq<char>)> {
    match order_entry::side_of(req.side@) {
        None => Err((BAD_REQUEST, "invalid side"@)),
        Some(side) => match order_entry::order_type_tif(req.order_type@) {
            None => Err((BAD_REQUEST, "unknown order_type"@)),
            Some(time_in_force) => if engines && !engine {
                Err((BAD_REQUEST, "Unknown symbol: "@ + req.symbol@))
            } else {
                let (base, quote) = order_entry::assets_of(req.symbol@);
                let freeze_price = order_entry::backing_price(side, req.price, best);
                match order_entry::reservation(side, freeze_price, req.quantity, base, quote) {
                    Err(ReserveError::NoPrice) => Err(
                        (BAD_REQUEST, "Unable to determine buy reservation price"@),
                    ),
                    Err(ReserveError::TooLarge) => Err((BAD_REQUEST, "Insufficient balance"@)),
                    Ok((freeze_asset, freeze_amount)) => Ok(
                        EntryView {
                            side,
                            time_in_force,
                            base,
                            quote,
                            freeze_price,
                            freeze_asset,
                            freeze_amount,
                        },
                    ),
                }
            },
        },
    }
}

/// Decides how an order of a checked shape is entered.
pub fn enter_order(
    req: &PlaceOrderRequest,
    engines: bool,
    engine: bool,
    best: Option<AmountAtoms>,
) -> (r: Result<Entry, ApiError>)
    ensures
        entry_verdict(r) == entry_of(*req, engines, engine, best),
{
    let side = match order_entry::parse_side(req.side.as_str()) {
        Some(side) => side,
        None => return refuse(BAD_REQUEST, "invalid side"),
    };
    let time_in_force = match order_entry::parse_order_type(req.order_type.as_str()) {
        Some(t) => t,
        None => return refuse(BAD_REQUEST, "unknown order_type"),
    };
    if engines && !engine {
        let mut message = text::owned("Unknown symbol: ");
        message.append(req.symbol.as_str());
        return Err(ApiError { status: BAD_REQUEST, message });
    }
    let (base, quote) = order_entry::split_assets(req.symbol.as_str());
    let freeze_price = order_entry::compute_backing_price(side, req.price, best);
    match order_entry::reserve(side, freeze_price, req.quantity, base.as_str(), quote.as_str()) {
        Err(ReserveError::NoPrice) => refuse(
            BAD_REQUEST,
            "Unable to determine buy reservation price",
        ),
        Err(ReserveError::TooLarge) => refuse(BAD_REQUEST, "Insufficient balance"),
        Ok((freeze_asset, freeze_amount)) => Ok(
            Entry { side, time_in_force, base, quote, freeze_price, freeze_asset, freeze_amount },
        ),
    }
}

/// Enters an order of a checked shape: what it needs is set aside, or it is
/// refused and nothing changes.
pub fn place_order(
    cache: &mut AccountCache,
    user_id: i64,
    req: &PlaceOrderRequest,
    engines: bool,
    engine: bool,
    best: Option<AmountAtoms>,
) -> (r: Result<Entry, ApiError>)
    requires
        old(cache).wf(),
    ensures
        final(cache).wf(),
        match entry_of(*req, engines, engine, best) {
            Err(e) => {
                &&& entry_verdict(r) == Err::<EntryView, (u16, Seq<char>)>(e)
                &&& final(cache).view() == old(cache).view()
            },
            Ok(e) => {
                let amount = e.freeze_amount.0 as int;
                &&& final(cache).view() == order_entry::after_freeze(
                    old(cache).view(),
                    user_id,
                    e.freeze_asset,
                    amount,
                )
                &&& entry_verdict(r) == (if order_entry::grants(
                    old(cache).view(),
                    user_id,
                    e.freeze_asset,
                    amount,
                ) {
                    Ok::<EntryView, (u16, Seq<char>)>(e)
                } else {
                    Err((BAD_REQUEST, "Insufficient balance"@))
                })
            },
        },
{
    let entry = match enter_order(req, engines, engine, best) {
        Ok(e) => e,
        Err(e) => return Err(e),
    };
    if cache.try_freeze_cache(user_id, entry.freeze_asset.as_str(), entry.freeze_amount) {
        Ok(entry)
    } else {
        refuse(BAD_REQUEST, "Insufficient balance")
    }
}

/// The same order is taken or refused alike whether it comes in as a request
/// or over a socket, and sets the same amount of the same asset aside.
pub proof fn law_interfaces_take_orders_alike(
    order: ws_handler::PricedOrder,
    req: PlaceOrderRequest,
    best: Option<AmountAtoms>,
)
    requires
        order.symbol@ == req.symbol@,
        order.side@ == req.side@,
        order.order_type@ == req.order_type@,
        order.time_in_force is None,
        order.price == req.price,
        order.qty == req.quantity,
        text::split_pair(req.symbol@, '_') is Some,
    ensures
        ({
            let venue = ws_handler::Venue {
                engines: false,
                engine: false,
                queue: true,
                listed: true,
            };
            match (ws_handler::entry_of(order, venue, best), entry_of(req, false, false, best)) {
                (Ok(p), Ok(e)) => {
                    &&& p.side == e.side
                    &&& p.time_in_force == e.time_in_force
                    &&& p.reserve == Some((e.freeze_asset, e.freeze_amount))
                },
                (Err(_), Err(_)) => true,
                _ => false,
            }
        }),
{
}

/// The row of an order that was just entered.
pub open spec fn pending_row(
    id: i64,
    user_id: i64,
    req: PlaceOrderRequest,
    freeze_price: AmountAtoms,
    now_ms: i64,
) -> models::OrderView {
    models::OrderView {
        id,
        user_id,
        symbol: req.symbol@,
        side: req.side@,
        order_type: req.order_type@,
        price_atoms: match req.price {
            Some(p) => Some(p.0),
            None => None,
        },
        quantity_atoms: req.quantity.0,
        filled_atoms: 0,
        status: "PENDING"@,
        freeze_price_atoms: freeze_price.0,
        client_order_id: text::opt_string(req.client_order_id),
        created_at_ms: now_ms,
        updated_at_ms: now_ms,
    }
}

/// Makes the row of an order that was just entered.
pub fn new_order(
    id: i64,
    user_id: i64,
    req: &PlaceOrderRequest,
    freeze_price: AmountAtoms,
    now_ms: i64,
) -> (r: DbOrder)
    ensures
        r.view() == pending_row(id, user_id, *req, freeze_price, now_ms),
{
    DbOrder {
        id,
        user_id,
        symbol: text::owned(req.symbol.as_str()),
        side: text::owned(req.side.as_str()),
        order_type: text::owned(req.order_type.as_str()),
        price_atoms: match req.price {
            Some(p) => Some(p.atoms()),
            None => None,
        },
        quantity_atoms: req.quantity.atoms(),
        filled_atoms: 0,
        status: text::owned("PENDING"),
        freeze_price_atoms: freeze_price.atoms(),
        client_order_id: match &req.client_order_id {
            Some(c) => Some(text::owned(c.as_str())),
            None => None,
        },
        created_at_ms: now_ms,
        updated_at_ms: now_ms,
    }
}

/// Whether a frame carries the row of an order that was just entered. An
/// absent price goes as zero, an absent client order id as nothing.
pub open spec fn carries(p: OrderUpsertPayload, o: models::OrderView) -> bool {
    &&& p.id == o.id
    &&& p.user_id == o.user_id
    &&& p.symbol@ == persist_event::packed(o.symbol)
    &&& p.side == (if o.side == "buy"@ {
        0u8
    } else {
        1u8
    })
    &&& p.status == DbOrderStatus::Pending.code()
    &&& p.order_type@ == persist_event::packed(o.order_type)
    &&& p.price_atoms == Some(pg_store::or_zero(o.price_atoms))
    &&& p.qty_atoms == Some(o.quantity_atoms)
    &&& p.filled_atoms == Some(o.filled_atoms)
    &&& p.freeze_price_atoms == Some(o.freeze_price_atoms)
    &&& p.client_order_id@ == persist_event::packed(
        match o.client_order_id {
            Some(c) => c,
            None => ""@,
        },
    )
    &&& p.created_at_ms == o.created_at_ms
}

fn upsert_payload(order: &DbOrder) -> (r: OrderUpsertPayload)
    ensures
        carries(r, order.view()),
{
    let client_order_id = match &order.client_order_id {
        Some(c) => pack_str(c.as_str()),
        None => pack_str(""),
    };
    OrderUpsertPayload {
        id: order.id,
        user_id: order.user_id,
        symbol: pack_str(order.symbol.as_str()),
        side: if text::str_eq(order.side.as_str(), "buy") {
            0
        } else {
            1
        },
        status: DbOrderStatus::Pending.as_u8(),
        order_type: pack_str(order.order_type.as_str()),
        price_atoms: match order.price_atoms {
            Some(p) => Some(p),
            None => Some(0),
        },
        qty_atoms: Some(order.quantity_atoms),
        filled_atoms: Some(order.filled_atoms),
        freeze_price_atoms: Some(order.freeze_price_atoms),
        client_order_id,
        created_at_ms: order.created_at_ms,
    }
}

/// Whether a frame sets a user's balance of an asset.
pub open spec fn sets_balance(
    p: AccountSetPayload,
    user_id: i64,
    asset: Seq<char>,
    b: AccountBalance,
) -> bool {
    &&& p.user_id == user_id
    &&& p.asset@ == persist_event::packed(asset)
    &&& p.balance_atoms == b.balance_atoms
    &&& p.frozen_atoms == b.frozen_atoms
    &&& p.legacy_balance_atoms == Some(b.balance_atoms)
    &&& p.legacy_frozen_atoms == Some(b.frozen_atoms)
}

/// The frame body that sets a user's balance of an asset.
pub fn account_set_payload(user_id: i64, asset: &str, b: AccountBalance) -> (r: AccountSetPayload)
    ensures
        sets_balance(r, user_id, asset@, b),
{
    AccountSetPayload {
        user_id,
        asset: pack_str(asset),
        balance_atoms: b.balance_atoms,
        frozen_atoms: b.frozen_atoms,
        legacy_balance_atoms: Some(b.balance_atoms),
        legacy_frozen_atoms: Some(b.frozen_atoms),
    }
}

/// The frames of an order that was just entered: its row, and the balance it
/// was set aside from where that is known.
pub fn publish_rest_order_upsert(cache: &AccountCache, order: &DbOrder, asset: &str) -> (r: Vec<
    PersistFrame,
>)
    requires
        cache.wf(),
    ensures
        ({
            let known = order_entry::balance_of(cache.view(), order.user_id, asset@);
            &&& r@.len() == (if known is Some {
                2int
            } else {
                1int
            })
            &&& r@[0].seq == 0
            &&& r@[0].body matches PersistBody::OrderUpsert(p) && carries(p, order.view())
            &&& known matches Some(b) ==> {
                &&& r@[1].seq == 0
                &&& r@[1].body matches PersistBody::AccountSet(p) && sets_balance(
                    p,
                    order.user_id,
                    asset@,
                    b,
                )
            }
        }),
{
    let mut frames: Vec<PersistFrame> = Vec::new();
    frames.push(PersistFrame::of(PersistBody::OrderUpsert(upsert_payload(order))));
    if let Some(b) = cache.get(order.user_id, asset) {
        let payload = account_set_payload(order.user_id, asset, b);
        frames.push(PersistFrame::of(PersistBody::AccountSet(payload)));
    }
    frames
}

/// A text that a frame field holds whole: at most sixteen ASCII characters
/// other than NUL.
pub open spec fn fits_field(s: Seq<char>) -> bool {
    s.len() <= 16 && forall|i: int|
        0 <= i < s.len() ==> 0 < (#[trigger] s[i]) as int && s[i] as int <= 0x7f
}

/// An order that was just entered can be read from the store as it was entered
/// once its frame has been applied there, provided that its texts fit the
/// fields of the frame.
pub proof fn law_entered_order_reads_back(
    store: redis_store::StoreView,
    id: i64,
    user_id: i64,
    req: PlaceOrderRequest,
    freeze_price: AmountAtoms,
    now_ms: i64,
    p: OrderUpsertPayload,
)
    requires
        carries(p, pending_row(id, user_id, req, freeze_price, now_ms)),
        order_entry::side_of(req.side@) is Some,
        fits_field(req.symbol@),
        fits_field(req.order_type@),
        req.client_order_id matches Some(c) ==> fits_field(c@) && c@.len() > 0,
        req.price matches Some(x) ==> x.0 != 0,
        redis_store::is_date(now_ms),
    ensures
        redis_store::decoded(
            id,
            store.after_all(redis_store::upsert_commands(p)).hash_at(
                redis_store::numbered("order:"@, id as int),
            ),
        ) == Some(pending_row(id, user_id, req, freeze_price, now_ms)),
{
    let o = pending_row(id, user_id, req, freeze_price, now_ms);
    persist_event::law_pack_round_trip(o.symbol);
    persist_event::law_pack_round_trip(o.order_type);
    reveal_strlit("");
    match o.client_order_id {
        Some(c) => persist_event::law_pack_round_trip(c),
        None => {
            persist_event::law_pack_round_trip(""@);
            assert(""@ =~= seq![]);
        },
    }
    reveal_strlit("buy");
    reveal_strlit("sell");
    assert("buy"@ != "sell"@) by {
        assert("buy"@.len() == 3);
        assert("sell"@.len() == 4);
    }
    let h = redis_store::upsert_hash(p);
    assert(h is Some);
    assert(h->0 =~= redis_store::row_hash(o));
    redis_store::law_order_reads_back(store, o);
}

/// What came back from the engine elsewhere.
#[derive(Debug, Clone, Copy, PartialEq, Eq)]
pub enum EngineReply {
    /// An update of this kind, with what was filled so far.
    Update { kind: u8, filled: AmountAtoms },
    /// The channel was closed.
    Closed,
    /// Nothing in time.
    Timeout,
    /// The command queue was full, or is gone.
    NotSent,
}

pub open spec fn order_verdict(r: Result<DbOrder, ApiError>) -> Result<
    models::OrderView,
    (u16, Seq<char>),
> {
    match r {
        Ok(o) => Ok(o.view()),
        Err(e) => Err(e.view()),
    }
}

/// The answer to an order by what the engine said.
pub fn answer_order(order: DbOrder, reply: EngineReply, now_ms: i64) -> (r: Result<
    DbOrder,
    ApiError,
>)
    ensures
        order_verdict(r) == (match reply {
            EngineReply::Update { kind, filled } => Ok(
                models::OrderView {
                    status: order_state::db_status_of_update(kind).name(),
                    filled_atoms: filled.0,
                    updated_at_ms: now_ms,
                    ..order.view()
                },
            ),
            EngineReply::Closed => Err((GATEWAY_TIMEOUT, "Order response channel closed"@)),
            EngineReply::Timeout => Err((GATEWAY_TIMEOUT, "Order response timeout"@)),
            EngineReply::NotSent => Err((BAD_GATEWAY, "Aeron channel closed"@)),
        }),
{
    match reply {
        EngineReply::Update { kind, filled } => {
            let mut order = order;
            order.status = text::owned(db_status_from_update_kind(kind).as_str());
            order.filled_atoms = filled.atoms();
            order.updated_at_ms = now_ms;
            Ok(order)
        },
        EngineReply::Closed => refuse(GATEWAY_TIMEOUT, "Order response channel closed"),
        EngineReply::Timeout => refuse(GATEWAY_TIMEOUT, "Order response timeout"),
        EngineReply::NotSent => refuse(BAD_GATEWAY, "Aeron channel closed"),
    }
}

/// Why a cancellation is turned away at the door.
#[derive(Debug)]
pub enum CancelRefusal {
    Throttled(ApiError),
    Misrouted(Misrouted),
}

/// What is checked before a cancellation is looked up: the user's rate, then
/// the owning desk. `throttled` is the reason of the rate limiter, where it
/// turned the user away.
pub fn cancel_gate(throttled: Option<&str>, user_id: i64, desk_id: u16) -> (r: Result<
    (),
    CancelRefusal,
>)
    ensures
        match throttled {
            Some(reason) => r matches Err(CancelRefusal::Throttled(e)) && e.view() == (
                TOO_MANY_REQUESTS,
                reason@,
            ),
            None => if owned(user_id, desk_id) {
                r is Ok
            } else {
                r == Err::<(), CancelRefusal>(
                    CancelRefusal::Misrouted(
                        Misrouted {
                            user_id,
                            desk_id,
                            owner_shard_id: counter_shard::owner_shard(user_id as int) as u16,
                        },
                    ),
                )
            },
        },
{
    if let Some(reason) = throttled {
        return Err(
            CancelRefusal::Throttled(
                ApiError { status: TOO_MANY_REQUESTS, message: text::owned(reason) },
            ),
        );
    }
    match ensure_user_owned_by_this_desk(user_id, desk_id) {
        Ok(_) => Ok(()),
        Err(m) => Err(CancelRefusal::Misrouted(m)),
    }
}

/// The way a cancellation goes.
#[derive(Debug, Clone, Copy, PartialEq, Eq, Structural)]
pub enum CancelRoute {
    /// There is no open order to cancel.
    Nowhere,
    /// To the engine, through the command queue.
    Queue,
    /// It is done by this process.
    Here,
}

/// The way a cancellation goes: to the command queue where this process runs
/// no engines and has a queue.
pub fn cancel_route(found: bool, engines: bool, queue: bool) -> (r: CancelRoute)
    ensures
        r == (if !found {
            CancelRoute::Nowhere
        } else if !engines && queue {
            CancelRoute::Queue
        } else {
            CancelRoute::Here
        }),
{
    if !found {
        CancelRoute::Nowhere
    } else if !engines && queue {
        CancelRoute::Queue
    } else {
        CancelRoute::Here
    }
}

/// What became of a cancellation.
#[derive(Debug, Clone, Copy, PartialEq, Eq, Structural)]
pub enum CancelState {
    /// No open order of the user has the id.
    Missing,
    /// Handed to the command queue, or not taken by it.
    Queued(bool),
    /// Cancelled here; `false` where the row was gone in the meantime.
    Deleted(bool),
}

/// The answer to a cancellation: `true` where it was only submitted.
pub fn answer_cancel(state: CancelState) -> (r: Result<bool, ApiError>)
    ensures
        verdict(r) == (match state {
            CancelState::Queued(true) => Ok::<bool, (u16, Seq<char>)>(true),
            CancelState::Queued(false) => Err((BAD_GATEWAY, "Aeron channel closed"@)),
            CancelState::Deleted(true) => Ok(false),
            CancelState::Deleted(false) | CancelState::Missing => Err(
                (NOT_FOUND, "Order not found or already closed"@),
            ),
        }),
{
    match state {
        CancelState::Queued(true) => Ok(true),
        CancelState::Queued(false) => refuse(BAD_GATEWAY, "Aeron channel closed"),
        CancelState::Deleted(true) => Ok(false),
        CancelState::Deleted(false) => refuse(NOT_FOUND, "Order not found or already closed"),
        CancelState::Missing => refuse(NOT_FOUND, "Order not found or already closed"),
    }
}

/// What a cancelled order gives back for its unfilled part. A buy without a
/// price gives nothing back.
pub open spec fn cancel_release(
    symbol: Seq<char>,
    side: Seq<char>,
    price: Option<AmountAtoms>,
    quantity: AmountAtoms,
    filled: AmountAtoms,
) -> Option<(Seq<char>, AmountAtoms)> {
    let (base, quote) = order_entry::assets_of(symbol);
    order_entry::release(
        if side == "buy"@ {
            Side::Buy
        } else {
            Side::Sell
        },
        match price {
            Some(p) => p,
            None => AmountAtoms(0),
        },
        order_entry::remaining(quantity, filled),
        base,
        quote,
    )
}

pub fn release_for_cancel(
    symbol: &str,
    side: &str,
    price: Option<AmountAtoms>,
    quantity: AmountAtoms,
    filled: AmountAtoms,
) -> (r: Option<(String, AmountAtoms)>)
    ensures
        order_entry::named_option(r) == cancel_release(symbol@, side@, price, quantity, filled),
{
    let (base, quote) = order_entry::split_assets(symbol);
    let side = if text::str_eq(side, "buy") {
        Side::Buy
    } else {
        Side::Sell
    };
    let backing = match price {
        Some(p) => p,
        None => AmountAtoms::zero(),
    };
    let remaining = order_entry::compute_remaining(quantity, filled);
    order_entry::compute_release(side, backing, remaining, base.as_str(), quote.as_str())
}

/// How many of a user's open orders a bulk cancellation of this process
/// reports: those whose row it deleted.
pub open spec fn deleted_count(deleted: Seq<bool>) -> int
    decreases deleted.len(),
{
    if deleted.len() == 0 {
        0
    } else {
        deleted_count(deleted.drop_last()) + (if deleted.last() {
            1int
        } else {
            0
        })
    }
}

pub fn count_deleted(deleted: &Vec<bool>) -> (r: usize)
    ensures
        r == deleted_count(deleted@),
{
    let mut n: usize = 0;
    let mut i: usize = 0;
    while i < deleted.len()
        invariant
            i <= deleted@.len(),
            n == deleted_count(deleted@.take(i as int)),
            n <= i,
        decreases deleted@.len() - i,
    {
        proof {
            assert(deleted@.take(i + 1).drop_last() =~= deleted@.take(i as int));
        }
        if deleted[i] {
            n = n + 1;
        }
        i = i + 1;
    }
    proof {
        assert(deleted@.take(i as int) =~= deleted@);
    }
    n
}

/// A page size: the default where none is asked for, and never over the most
/// that is handed out.
pub fn page_limit(asked: Option<i64>, default: i64, most: i64) -> (r: i64)
    ensures
        r == ({
            let wanted = match asked {
                Some(v) => v,
                None => default,
            };
            if wanted < most {
                wanted
            } else {
                most
            }
        }),
{
    let wanted: i64 = match asked {
        Some(v) => v,
        None => default,
    };
    if wanted < most {
        wanted
    } else {
        most
    }
}

/// The stored statuses that a status filter stands for.
pub open spec fn statuses(filter: Seq<char>) -> Seq<Seq<char>> {
    if filter == "open"@ {
        seq!["PENDING"@, "TRADING"@]
    } else if filter == "history"@ {
        seq!["COMPLETED"@, "CANCELED"@, "REJECTED"@]
    } else {
        seq![filter]
    }
}

pub fn status_filter(filter: &str) -> (r: Vec<String>)
    ensures
        text::text_views(r@) == statuses(filter@),
{
    let mut out: Vec<String> = Vec::new();
    if text::str_eq(filter, "open") {
        out.push(text::owned("PENDING"));
        out.push(text::owned("TRADING"));
    } else if text::str_eq(filter, "history") {
        out.push(text::owned("COMPLETED"));
        out.push(text::owned("CANCELED"));
        out.push(text::owned("REJECTED"));
    } else {
        out.push(text::owned(filter));
    }
    proof {
        assert(text::text_views(out@) =~= statuses(filter@));
    }
    out
}

/// Checks a deposit before it is credited: only the deposit service may call,
/// the amount is positive, and the user is this desk's.
pub fn check_deposit_request(
    authorized: bool,
    amount_atoms: i64,
    user_id: i64,
    desk_id: u16,
) -> (r: Result<(), ApiError>)
    ensures
        verdict(r) == (if !authorized {
            Err::<(), (u16, Seq<char>)>((FORBIDDEN, "deposit service token required"@))
        } else if amount_atoms <= 0 {
            Err((BAD_REQUEST, "amount must be positive"@))
        } else if !owned(user_id, desk_id) {
            Err((MISDIRECTED_REQUEST, "wrong counter shard"@))
        } else {
            Ok(())
        }),
{
    if !authorized {
        return refuse(FORBIDDEN, "deposit service token required");
    }
    if amount_atoms <= 0 {
        return refuse(BAD_REQUEST, "amount must be positive");
    }
    if !is_user_owned_by_desk(user_id, desk_id) {
        return refuse(MISDIRECTED_REQUEST, "wrong counter shard");
    }
    Ok(())
}

/// Checks a request to withdraw: the user is this desk's and the amount is
/// positive.
pub fn check_withdrawal_request(amount_atoms: i64, user_id: i64, desk_id: u16) -> (r: Result<
    (),
    ApiError,
>)
    ensures
        verdict(r) == (if !owned(user_id, desk_id) {
            Err::<(), (u16, Seq<char>)>((MISDIRECTED_REQUEST, "wrong counter shard"@))
        } else if amount_atoms <= 0 {
            Err((BAD_REQUEST, "amount must be positive"@))
        } else {
            Ok(())
        }),
{
    if !is_user_owned_by_desk(user_id, desk_id) {
        return refuse(MISDIRECTED_REQUEST, "wrong counter shard");
    }
    if amount_atoms <= 0 {
        return refuse(BAD_REQUEST, "amount must be positive");
    }
    Ok(())
}

/// The fee of a withdrawal where none is set up, in atoms.
pub const DEFAULT_WITHDRAW_FEE_ATOMS: i64 = 100_000_000;

/// How the chain service moves a withdrawal on.
#[derive(Debug)]
pub enum WithdrawalMove {
    /// From one status to the next, with the transaction where it is known.
    Advance { from: &'static str, to: &'static str, tx_hash: Option<String> },
    Confirm { tx: String },
    Fail { reason: String },
}

pub enum MoveView {
    Advance { from: Seq<char>, to: Seq<char>, tx_hash: Option<Seq<char>> },
    Confirm { tx: Seq<char> },
    Fail { reason: Seq<char> },
}

impl WithdrawalMove {
    pub open spec fn view(self) -> MoveView {
        match self {
            WithdrawalMove::Advance { from, to, tx_hash } => MoveView::Advance {
                from: from@,
                to: to@,
                tx_hash: text::opt_string(tx_hash),
            },
            WithdrawalMove::Confirm { tx } => MoveView::Confirm { tx: tx@ },
            WithdrawalMove::Fail { reason } => MoveView::Fail { reason: reason@ },
        }
    }

    /// Whether the move, once made, changes what the user owns or has set
    /// aside.
    pub open spec fn ends(self) -> bool {
        self is Confirm || self is Fail
    }

    pub fn moves_funds(&self) -> (r: bool)
        ensures
            r == self.ends(),
    {
        match self {
            WithdrawalMove::Confirm { tx: _ } => true,
            WithdrawalMove::Fail { reason: _ } => true,
            WithdrawalMove::Advance { from: _, to: _, tx_hash: _ } => false,
        }
    }
}

pub open spec fn move_verdict(r: Result<WithdrawalMove, ApiError>) -> Result<
    MoveView,
    (u16, Seq<char>),
> {
    match r {
        Ok(m) => Ok(m.view()),
        Err(e) => Err(e.view()),
    }
}

/// Which move a reported status stands for.
pub fn read_withdrawal_move(status: &str, tx_hash: Option<String>, reason: Option<String>) -> (r:
    Result<WithdrawalMove, ApiError>)
    ensures
        move_verdict(r) == (if status@ == "approved"@ {
            Ok::<MoveView, (u16, Seq<char>)>(
                MoveView::Advance { from: "pending"@, to: "approved"@, tx_hash: None },
            )
        } else if status@ == "broadcast"@ {
            Ok(
                MoveView::Advance {
                    from: "approved"@,
                    to: "broadcast"@,
                    tx_hash: text::opt_string(tx_hash),
                },
            )
        } else if status@ == "confirmed"@ {
            Ok(
                MoveView::Confirm {
                    tx: text::text_or(text::opt_string(tx_hash), ""@),
                },
            )
        } else if status@ == "failed"@ {
            Ok(
                MoveView::Fail {
                    reason: text::text_or(
                        text::opt_string(reason),
                        "chain send failed"@,
                    ),
                },
            )
        } else {
            Err((BAD_REQUEST, "unknown status '"@ + status@ + "'"@))
        }),
{
    if text::str_eq(status, "approved") {
        Ok(WithdrawalMove::Advance { from: "pending", to: "approved", tx_hash: None })
    } else if text::str_eq(status, "broadcast") {
        Ok(WithdrawalMove::Advance { from: "approved", to: "broadcast", tx_hash })
    } else if text::str_eq(status, "confirmed") {
        let tx = match tx_hash {
            Some(t) => t,
            None => text::owned(""),
        };
        Ok(WithdrawalMove::Confirm { tx })
    } else if text::str_eq(status, "failed") {
        let reason = match reason {
            Some(t) => t,
            None => text::owned("chain send failed"),
        };
        Ok(WithdrawalMove::Fail { reason })
    } else {
        let mut message = text::owned("unknown status '");
        message.append(status);
        message.append("'");
        Err(ApiError { status: BAD_REQUEST, message })
    }
}

/// An order that the desk sends of its own accord.
#[derive(Debug, Clone, Copy, PartialEq, Eq, Structural)]
pub struct DeskOrder {
    pub side: u8,
    pub time_in_force: u8,
    pub price_ticks: i64,
    pub qty_lots: i64,
    pub reduce_only: bool,
}

/// The side that closes a position.
pub open spec fn closing_side(side: PositionSide) -> u8 {
    match side {
        PositionSide::Long => 1,
        PositionSide::Short => 0,
    }
}

/// The order that closes a position by hand: it goes a twentieth through the
/// mark, so that it fills, and is dropped where it does not.
pub open spec fn close_order(position: PositionRiskState, mark: int) -> DeskOrder {
    let side = closing_side(position.side);
    DeskOrder {
        side,
        time_in_force: TimeInForce::IOC.code(),
        price_ticks: if side == 0 {
            (mark + mark / 20) as i64
        } else {
            (mark - mark / 20) as i64
        },
        qty_lots: position.qty_lots,
        reduce_only: true,
    }
}

/// Plans the closing of a position by hand.
pub fn plan_force_close(
    position: Option<PositionRiskState>,
    has_queue: bool,
    mark_ticks: Option<i64>,
) -> (r: Result<DeskOrder, ApiError>)
    requires
        position is Some && (position->0).side == PositionSide::Short && has_queue && mark_ticks
            is Some ==> mark_ticks->0 + mark_ticks->0 as int / 20 <= i64::MAX,
    ensures
        verdict(r) == (match position {
            None => Err::<DeskOrder, (u16, Seq<char>)>((NOT_FOUND, "no open position"@)),
            Some(p) => if !has_queue {
                Err((SERVICE_UNAVAILABLE, "no command queue"@))
            } else if mark_ticks is None || mark_ticks->0 <= 0 {
                Err((SERVICE_UNAVAILABLE, "no mark price"@))
            } else {
                Ok(close_order(p, mark_ticks->0 as int))
            },
        }),
{
    let p = match position {
        Some(p) => p,
        None => return refuse(NOT_FOUND, "no open position"),
    };
    if !has_queue {
        return refuse(SERVICE_UNAVAILABLE, "no command queue");
    }
    let mark: i64 = match mark_ticks {
        Some(m) => m,
        None => return refuse(SERVICE_UNAVAILABLE, "no mark price"),
    };
    if mark <= 0 {
        return refuse(SERVICE_UNAVAILABLE, "no mark price");
    }
    let side: u8 = match p.side {
        PositionSide::Long => 1,
        PositionSide::Short => 0,
    };
    let price_ticks: i64 = if side == 0 {
        mark + mark / 20
    } else {
        mark - mark / 20
    };
    Ok(
        DeskOrder {
            side,
            time_in_force: TimeInForce::IOC.as_u8(),
            price_ticks,
            qty_lots: p.qty_lots,
            reduce_only: true,
        },
    )
}

/// A liquidation as it is sent to the engine.
#[derive(Debug)]
pub struct LiquidationPlan {
    pub order: DeskOrder,
    pub order_type: &'static str,
    pub margin_atoms: i64,
}

/// The margin of lots at a mark; nothing is known of it without a mark.
pub open spec fn margin_at(mark: int, lots: int, rules: SymbolRules) -> int {
    let notional = if mark > 0 {
        risk::calc::notional(mark, lots, rules.notional_scale as int) as i64 as int
    } else {
        0
    };
    if rules.default_leverage == 0 {
        0
    } else {
        money::trunc_div(notional, rules.default_leverage as int)
    }
}

/// Plans the order that liquidates a position, or a part of it. An event
/// without a price sends nothing.
pub fn plan_liquidation(
    event: &LiquidationEvent,
    tranche_bps: i64,
    mark_ticks: Option<i64>,
    rules: &SymbolRules,
) -> (r: Option<LiquidationPlan>)
    requires
        event.liq_price_ticks != 0 ==> risk::calc::tranche_fits(
            event.qty_lots as int,
            tranche_bps as int,
        ),
        event.liq_price_ticks != 0 ==> (mark_ticks matches Some(m) ==> m > 0
            ==> risk::calc::notional_fits(
            m as int,
            risk::calc::tranche(event.qty_lots as int, tranche_bps as int),
            rules.notional_scale as int,
        )),
    ensures
        r is Some <==> event.liq_price_ticks != 0,
        r matches Some(plan) ==> {
            let lots = risk::calc::tranche(event.qty_lots as int, tranche_bps as int);
            &&& plan.order == (DeskOrder {
                side: closing_side(event.side),
                time_in_force: TimeInForce::IOC.code(),
                price_ticks: event.liq_price_ticks,
                qty_lots: lots as i64,
                reduce_only: false,
            })
            &&& plan.order_type@ == (if closing_side(event.side) == 0 {
                "liq-buy"@
            } else {
                "liq-sell"@
            })
            &&& plan.margin_atoms == margin_at(
                match mark_ticks {
                    Some(m) => m as int,
                    None => 0,
                },
                lots,
                *rules,
            )
        },
{
    if event.liq_price_ticks == 0 {
        return None;
    }
    let lots = risk::calc::liquidation_tranche_lots(event.qty_lots, tranche_bps);
    let mark: i64 = match mark_ticks {
        Some(m) => m,
        None => 0,
    };
    let notional: i64 = if mark > 0 {
        risk::calc::calc_notional_atoms(mark, lots, rules.notional_scale)
    } else {
        0
    };
    let margin_atoms = risk::calc::calc_initial_margin_atoms(notional, rules.default_leverage);
    let (side, order_type) = match event.side {
        PositionSide::Long => (1u8, "liq-sell"),
        PositionSide::Short => (0u8, "liq-buy"),
    };
    Some(
        LiquidationPlan {
            order: DeskOrder {
                side,
                time_in_force: TimeInForce::IOC.as_u8(),
                price_ticks: event.liq_price_ticks,
                qty_lots: lots,
                reduce_only: false,
            },
            order_type,
            margin_atoms,
        },
    )
}

/// How often a forced mark is fed to the smoothing, so that it settles.
pub const SETTLING_UPDATES: u8 = 40;

/// The engine after a mark was fed to it some times, and whether all of them
/// stayed in range; it stays as it is once one did not.
pub open spec fn fed(
    v: risk::engine::RiskView,
    symbol: Symbol,
    price: i64,
    scale: i64,
    times: nat,
) -> (risk::engine::RiskView, bool)
    decreases times,
{
    if times == 0 {
        (v, true)
    } else {
        let (before, ok) = fed(v, symbol, price, scale, (times - 1) as nat);
        if !ok || price <= 0 {
            (before, ok)
        } else if risk::engine::mark_fits(before, symbol, price, scale) {
            (risk::engine::marked(before, symbol, price, scale), true)
        } else {
            (before, false)
        }
    }
}

/// Forces the mark of a symbol, lets it settle and runs one round of risk
/// checks, which yields the positions to liquidate. `None` where a value of the
/// new mark does not fit; the round is then left out.
pub fn force_mark(engine: &mut RiskEngine, symbol: Symbol, price_ticks: i64, scale: i64) -> (r:
    Option<Vec<LiquidationEvent>>)
    requires
        old(engine).wf(),
    ensures
        final(engine).wf(),
        ({
            let forced = risk::engine::RiskView {
                marks: old(engine).view().marks.insert(symbol, price_ticks),
                ..old(engine).view()
            };
            let (settled, ok) = fed(forced, symbol, price_ticks, scale, SETTLING_UPDATES as nat);
            &&& r is Some <==> ok
            &&& r matches Some(events) ==> final(engine).view() == risk::engine::ticked(settled)
                && risk::engine::liquidates(settled, events@)
            &&& r is None ==> final(engine).view() == settled
        }),
{
    engine.force_mark_price_for_test(symbol, price_ticks);
    let ghost forced = engine.view();
    let mut i: u8 = 0;
    let mut ok = true;
    while i < SETTLING_UPDATES
        invariant
            i <= SETTLING_UPDATES,
            engine.wf(),
            (engine.view(), ok) == fed(forced, symbol, price_ticks, scale, i as nat),
        decreases SETTLING_UPDATES - i,
    {
        if ok {
            ok = engine.try_update_mark_price(symbol, price_ticks, scale);
        }
        i = i + 1;
    }
    if ok {
        Some(engine.run_risk_tick())
    } else {
        None
    }
}

/// A stop or take-profit order as it comes in. An amount is `None` where it
/// cannot be written in atoms.
#[derive(Debug)]
pub struct PlaceTriggerRequest {
    pub symbol: String,
    pub side: String,
    pub order_type: String,
    pub trigger_price: Option<AmountAtoms>,
    /// The limit, where one is given.
    pub price: Option<Option<AmountAtoms>>,
    pub quantity: Option<AmountAtoms>,
    pub trigger_when: Option<String>,
}

/// A price in ticks.
pub open spec fn price_units(
    rules: SymbolRules,
    amount: Option<AmountAtoms>,
    refusal: Seq<char>,
) -> Result<i64, (u16, Seq<char>)> {
    match amount {
        Some(a) => match rules.ticks_of(a) {
            Ok(n) => Ok(n),
            Err(_) => Err((BAD_REQUEST, refusal)),
        },
        None => Err((BAD_REQUEST, refusal)),
    }
}

/// A quantity in lots.
pub open spec fn lot_units(rules: SymbolRules, amount: Option<AmountAtoms>) -> Result<
    i64,
    (u16, Seq<char>),
> {
    match amount {
        Some(a) => match rules.lots_of(a) {
            Ok(n) => Ok(n),
            Err(_) => Err((BAD_REQUEST, "quantity off step"@)),
        },
        None => Err((BAD_REQUEST, "quantity off step"@)),
    }
}

/// When a trigger fires: as asked, or else as a stop of its side does.
pub open spec fn direction(side: u8, asked: Option<Seq<char>>) -> Option<TriggerWhen> {
    match asked {
        None => Some(
            if side == 0 {
                TriggerWhen::Rising
            } else {
                TriggerWhen::Falling
            },
        ),
        Some(w) => if w == "rising"@ {
            Some(TriggerWhen::Rising)
        } else if w == "falling"@ {
            Some(TriggerWhen::Falling)
        } else {
            None
        },
    }
}

/// The trigger that a request asks for, or why it is refused.
pub open spec fn trigger_of(id: i64, user_id: i64, req: PlaceTriggerRequest) -> Result<
    (TriggerWhen, PendingTrigger),
    (u16, Seq<char>),
> {
    let rules = symbol_rules::rules_of(req.symbol@);
    let is_market = req.order_type@ == "market"@;
    match order_entry::side_of(req.side@) {
        None => Err((BAD_REQUEST, "side must be buy|sell"@)),
        Some(side) => if !is_market && req.order_type@ != "limit"@ {
            Err((BAD_REQUEST, "order_type must be limit|market"@))
        } else {
            match price_units(rules, req.trigger_price, "trigger_price off tick"@) {
                Err(e) => Err(e),
                Ok(trigger_price_ticks) => if !is_market && req.price is None {
                    Err((BAD_REQUEST, "limit trigger requires price"@))
                } else if !is_market && price_units(rules, req.price->0, "price off tick"@) is Err {
                    Err((BAD_REQUEST, "price off tick"@))
                } else {
                    match lot_units(rules, req.quantity) {
                        Err(e) => Err(e),
                        Ok(qty_lots) => if qty_lots <= 0 || trigger_price_ticks <= 0 {
                            Err((BAD_REQUEST, "must be positive"@))
                        } else {
                            match direction(side.code(), text::opt_string(req.trigger_when)) {
                                None => Err(
                                    (BAD_REQUEST, "trigger_when must be rising|falling"@),
                                ),
                                Some(when) => Ok(
                                    (
                                        when,
                                        PendingTrigger {
                                            id,
                                            user_id,
                                            side: side.code(),
                                            is_market,
                                            trigger_price_ticks,
                                            price_ticks: if is_market {
                                                None
                                            } else {
                                                Some(
                                                    price_units(
                                                        rules,
                                                        req.price->0,
                                                        "price off tick"@,
                                                    )->Ok_0,
                                                )
                                            },
                                            qty_lots,
                                        },
                                    ),
                                ),
                            }
                        },
                    }
                },
            }
        },
    }
}

fn to_ticks(rules: &SymbolRules, amount: Option<AmountAtoms>, refusal: &str) -> (r: Result<
    i64,
    ApiError,
>)
    requires
        rules.wf(),
    ensures
        verdict(r) == price_units(*rules, amount, refusal@),
{
    match amount {
        Some(a) => match rules.price_atoms_to_ticks(a) {
            Ok(n) => Ok(n),
            Err(_) => refuse(BAD_REQUEST, refusal),
        },
        None => refuse(BAD_REQUEST, refusal),
    }
}

/// Makes the trigger that a request asks for.
pub fn plan_trigger(id: i64, user_id: i64, req: &PlaceTriggerRequest) -> (r: Result<
    (TriggerWhen, PendingTrigger),
    ApiError,
>)
    ensures
        verdict(r) == trigger_of(id, user_id, *req),
{
    let side = match order_entry::parse_side(req.side.as_str()) {
        Some(side) => side.as_u8(),
        None => return refuse(BAD_REQUEST, "side must be buy|sell"),
    };
    let is_market = text::str_eq(req.order_type.as_str(), "market");
    if !is_market && !text::str_eq(req.order_type.as_str(), "limit") {
        return refuse(BAD_REQUEST, "order_type must be limit|market");
    }
    let rules = SymbolRules::for_symbol(req.symbol.as_str());
    let trigger_price_ticks = match to_ticks(&rules, req.trigger_price, "trigger_price off tick") {
        Ok(n) => n,
        Err(e) => return Err(e),
    };
    let price_ticks: Option<i64> = if is_market {
        None
    } else {
        match req.price {
            None => return refuse(BAD_REQUEST, "limit trigger requires price"),
            Some(p) => match to_ticks(&rules, p, "price off tick") {
                Ok(n) => Some(n),
                Err(e) => return Err(e),
            },
        }
    };
    let qty_lots: i64 = match req.quantity {
        Some(q) => match rules.quantity_atoms_to_lots(q) {
            Ok(n) => n,
            Err(_) => return refuse(BAD_REQUEST, "quantity off step"),
        },
        None => return refuse(BAD_REQUEST, "quantity off step"),
    };
    if qty_lots <= 0 || trigger_price_ticks <= 0 {
        return refuse(BAD_REQUEST, "must be positive");
    }
    let when = match &req.trigger_when {
        None => TriggerWhen::default_for_side(side),
        Some(w) => match TriggerWhen::from_db_str(w.as_str()) {
            Some(w) => w,
            None => return refuse(BAD_REQUEST, "trigger_when must be rising|falling"),
        },
    };
    Ok(
        (
            when,
            PendingTrigger {
                id,
                user_id,
                side,
                is_market,
                trigger_price_ticks,
                price_ticks,
                qty_lots,
            },
        ),
    )
}

/// A trigger that was taken has a positive size and a positive price to wait
/// for, and a limit exactly where it is no market order.
pub proof fn law_taken_triggers_are_sound(id: i64, user_id: i64, req: PlaceTriggerRequest)
    ensures
        trigger_of(id, user_id, req) matches Ok((_, t)) ==> {
            &&& t.qty_lots > 0
            &&& t.trigger_price_ticks > 0
            &&& t.price_ticks is None <==> t.is_market
        },
{
}

/// What a user owns of the settlement asset, by the rows of their accounts.
pub open spec fn settlement_balance(rows: Seq<(Seq<char>, AccountBalance)>) -> i64
    decreases rows.len(),
{
    if rows.len() == 0 {
        0
    } else if rows[0].0 == "USDT"@ {
        rows[0].1.balance_atoms
    } else {
        settlement_balance(rows.drop_first())
    }
}

pub open spec fn row_views(rows: Seq<(String, AccountBalance)>) -> Seq<
    (Seq<char>, AccountBalance),
> {
    rows.map_values(|r: (String, AccountBalance)| (r.0@, r.1))
}

/// The equity that a margin account opens with: the first balance of the
/// settlement asset, or nothing.
pub fn opening_equity(rows: &Vec<(String, AccountBalance)>) -> (r: i64)
    ensures
        r == settlement_balance(row_views(rows@)),
{
    let ghost all = row_views(rows@);
    let mut i: usize = 0;
    proof {
        assert(all.skip(0) =~= all);
    }
    while i < rows.len()
        invariant
            i <= rows@.len(),
            all == row_views(rows@),
            settlement_balance(all) == settlement_balance(all.skip(i as int)),
        decreases rows@.len() - i,
    {
        proof {
            assert(all.skip(i as int).drop_first() =~= all.skip(i + 1));
            assert(all.skip(i as int)[0] == (rows@[i as int].0@, rows@[i as int].1));
        }
        if text::str_eq(rows[i].0.as_str(), "USDT") {
            return rows[i].1.balance_atoms;
        }
        i = i + 1;
    }
    0
}

/// Balances with the rows of a user's accounts taken over.
pub open spec fn warmed(
    m: Map<i64, Map<Seq<char>, AccountBalance>>,
    user_id: i64,
    rows: Seq<(Seq<char>, AccountBalance)>,
) -> Map<i64, Map<Seq<char>, AccountBalance>>
    decreases rows.len(),
{
    if rows.len() == 0 {
        m
    } else {
        let before = warmed(m, user_id, rows.drop_last());
        order_entry::with_balance(before, user_id, rows.last().0, rows.last().1)
    }
}

/// Takes the rows of a user's accounts over, and opens a margin account where
/// the user has none. Without rows nothing happens.
pub fn warm_account_cache_for(
    cache: &mut AccountCache,
    engine: &mut RiskEngine,
    user_id: i64,
    rows: &Vec<(String, AccountBalance)>,
)
    requires
        old(cache).wf(),
        old(engine).wf(),
        forall|i: int|
            0 <= i < rows@.len() ==> money::fits_i64((#[trigger] rows@[i]).1.spendable()),
    ensures
        final(cache).wf(),
        final(engine).wf(),
        final(cache).view() == warmed(old(cache).view(), user_id, row_views(rows@)),
        final(engine).view() == (if rows@.len() == 0 || old(engine).view().accounts.contains_key(
            user_id,
        ) {
            old(engine).view()
        } else {
            risk::engine::RiskView {
                accounts: old(engine).view().accounts.insert(
                    user_id,
                    risk::types::AccountRiskState::fresh(
                        user_id,
                        settlement_balance(row_views(rows@)),
                    ),
                ),
                ..old(engine).view()
            }
        }),
{
    if rows.len() == 0 {
        return;
    }
    if engine.account(user_id).is_none() {
        engine.initialize_account(user_id, opening_equity(rows));
    }
    let ghost all = row_views(rows@);
    let ghost start = cache.view();
    let mut i: usize = 0;
    proof {
        assert(all.take(0) =~= seq![]);
    }
    while i < rows.len()
        invariant
            i <= rows@.len(),
            all == row_views(rows@),
            cache.wf(),
            cache.view() == warmed(start, user_id, all.take(i as int)),
            forall|j: int|
                0 <= j < rows@.len() ==> money::fits_i64((#[trigger] rows@[j]).1.spendable()),
        decreases rows@.len() - i,
    {
        proof {
            assert(all.take(i + 1).drop_last() =~= all.take(i as int));
            assert(all.take(i + 1).last() == (rows@[i as int].0@, rows@[i as int].1));
        }
        cache.cache_set_snapshot(user_id, rows[i].0.as_str(), rows[i].1);
        i = i + 1;
    }
    proof {
        assert(all.take(i as int) =~= all);
    }
}

/// The caller's address: the first of those that a proxy lists.
pub fn client_address(header: Option<&str>) -> (r: Option<String>)
    ensures
        text::opt_string(r) == (match header {
            Some(h) => Some(
                text::trimmed(
                    match text::split_pair(h@, ',') {
                        Some(p) => p.0,
                        None => h@,
                    },
                ),
            ),
            None => None,
        }),
{
    match header {
        Some(h) => match text::split_once(h, ',') {
            Some((first, _)) => Some(text::trim(first.as_str())),
            None => Some(text::trim(h)),
        },
        None => None,
    }
}

/// The status of a registration that failed: a conflict where the address is
/// taken already.
pub fn registration_status(message: &str) -> (r: u16)
    ensures
        r == (if text::holds(message@, "duplicate key"@) || text::holds(
            message@,
            "unique constraint"@,
        ) {
            CONFLICT
        } else {
            BAD_REQUEST
        }),
{
    if text::contains(message, "duplicate key") || text::contains(message, "unique constraint") {
        CONFLICT
    } else {
        BAD_REQUEST
    }
}

pub open spec fn text_verdict(r: Result<String, ApiError>) -> Result<Seq<char>, (u16, Seq<char>)> {
    match r {
        Ok(t) => Ok(t@),
        Err(e) => Err(e.view()),
    }
}

/// The name under which a user asks to be identified.
pub fn identity_name(full_name: &str) -> (r: Result<String, ApiError>)
    ensures
        text_verdict(r) == (if text::trimmed(full_name@).len() == 0 {
            Err::<Seq<char>, (u16, Seq<char>)>((BAD_REQUEST, "full_name required"@))
        } else {
            Ok(text::trimmed(full_name@))
        }),
{
    let name = text::trim(full_name);
    if name.as_str().is_empty() {
        refuse(BAD_REQUEST, "full_name required")
    } else {
        Ok(name)
    }
}

/// The least length of a password, in bytes.
pub const MIN_PASSWORD_LEN: usize = 8;

/// Checks a new password before anything is looked up.
pub fn check_new_password(new_password: &str) -> (r: Result<(), ApiError>)
    ensures
        verdict(r) == (if vstd::utf8::encode_utf8(new_password@).len() < MIN_PASSWORD_LEN {
            Err::<(), (u16, Seq<char>)>(
                (BAD_REQUEST, "new_password must be at least 8 characters"@),
            )
        } else {
            Ok(())
        }),
{
    if new_password.as_bytes().len() < MIN_PASSWORD_LEN {
        refuse(BAD_REQUEST, "new_password must be at least 8 characters")
    } else {
        Ok(())
    }
}

/// Whether a change of password is due.
pub open spec fn check_of(
    current: Seq<char>,
    new_password: Seq<char>,
    stored_hash: Option<Seq<char>>,
) -> Result<(), (u16, Seq<char>)> {
    if vstd::utf8::encode_utf8(new_password).len() < MIN_PASSWORD_LEN {
        Err((BAD_REQUEST, "new_password must be at least 8 characters"@))
    } else {
        match stored_hash {
            None => Err((NOT_FOUND, "User not found"@)),
            Some(h) => if user_service::password_accepted(current, h) {
                Ok(())
            } else {
                Err((UNAUTHORIZED, "Current password is incorrect"@))
            },
        }
    }
}

/// The answer to a password change by what hashing the new password came to.
pub fn answer_hash(hash: Result<String, AuthError>) -> (r: Result<String, ApiError>)
    ensures
        match hash {
            Ok(h) => r matches Ok(stored) && stored@ == h@,
            Err(e) => r matches Err(refusal) && refusal.view() == (
                INTERNAL_SERVER_ERROR,
                e.text(),
            ),
        },
{
    match hash {
        Ok(h) => Ok(h),
        Err(e) => {
            let message = e.message();
            Err(ApiError { status: INTERNAL_SERVER_ERROR, message: text::owned(message) })
        },
    }
}

/// Changes a password: the hash to store, where the new password is long
/// enough and the current one is right. The salt of a hash is drawn at random;
/// the hash accepts the new password.
pub fn change_password(current: &str, new_password: &str, stored_hash: Option<&str>) -> (r: Result<
    String,
    ApiError,
>)
    ensures
        r matches Ok(h) ==> user_service::password_accepted(new_password@, h@),
        match check_of(current@, new_password@, text::opt_str(stored_hash)) {
            Err(e) => r is Err && (r->Err_0).view() == e,
            Ok(_) => r matches Err(e) ==> e.view() == (
                INTERNAL_SERVER_ERROR,
                AuthError::PasswordNotHashed.text(),
            ),
        },
{
    match check_new_password(new_password) {
        Ok(_) => {},
        Err(e) => return Err(e),
    }
    let hash = match stored_hash {
        Some(h) => h,
        None => return refuse(NOT_FOUND, "User not found"),
    };
    match user_service::check_password(current, hash) {
        Ok(_) => {},
        Err(_) => return refuse(UNAUTHORIZED, "Current password is incorrect"),
    }
    answer_hash(user_service::hash_password(new_password))
}

/// The settlement balance from which on no test funds are granted: a hundred.
pub const TEST_FUNDS_CEILING_ATOMS: i64 = 10_000_000_000;

/// Whether test funds may be claimed.
pub fn check_test_funds(usdt_balance_atoms: Option<i64>) -> (r: Result<(), ApiError>)
    ensures
        verdict(r) == (if usdt_balance_atoms matches Some(b) && b >= TEST_FUNDS_CEILING_ATOMS {
            Err::<(), (u16, Seq<char>)>(
                (
                    BAD_REQUEST,
                    "You already have funds. Test funds can only be claimed when USDT balance is below 100."@,
                ),
            )
        } else {
            Ok(())
        }),
{
    match usdt_balance_atoms {
        Some(b) if b >= TEST_FUNDS_CEILING_ATOMS => refuse(
            BAD_REQUEST,
            "You already have funds. Test funds can only be claimed when USDT balance is below 100.",
        ),
        _ => Ok(()),
    }
}

/// An amount of an asset, in atoms.
pub type Grant = (&'static str, i64);

pub open spec fn grant_views(s: Seq<Grant>) -> Seq<(Seq<char>, i64)> {
    s.map_values(|g: Grant| (g.0@, g.1))
}

fn four_grants(usdt: i64, btc: i64, eth: i64, sol: i64) -> (r: Vec<Grant>)
    ensures
        grant_views(r@) == seq![("USDT"@, usdt), ("BTC"@, btc), ("ETH"@, eth), ("SOL"@, sol)],
{
    let mut out: Vec<Grant> = Vec::new();
    out.push(("USDT", usdt));
    out.push(("BTC", btc));
    out.push(("ETH", eth));
    out.push(("SOL", sol));
    proof {
        assert(grant_views(out@) =~= seq![
            ("USDT"@, usdt),
            ("BTC"@, btc),
            ("ETH"@, eth),
            ("SOL"@, sol),
        ]);
    }
    out
}

/// What a claim of test funds adds: 10,000 dollars, one bitcoin, ten ether and
/// a hundred sol.
pub fn test_grants() -> (r: Vec<Grant>)
    ensures
        grant_views(r@) == seq![
            ("USDT"@, 1_000_000_000_000i64),
            ("BTC"@, 100_000_000i64),
            ("ETH"@, 1_000_000_000i64),
            ("SOL"@, 10_000_000_000i64),
        ],
{
    four_grants(1_000_000_000_000, 100_000_000, 1_000_000_000, 10_000_000_000)
}

/// The address of the market maker's account.
pub const ROBOT_EMAIL: &'static str = "robot@lightningx.exchange";

/// Whether the caller is the market maker.
pub fn check_robot(email: &str) -> (r: Result<(), ApiError>)
    ensures
        verdict(r) == (if email@ == ROBOT_EMAIL@ {
            Ok::<(), (u16, Seq<char>)>(())
        } else {
            Err((FORBIDDEN, "Forbidden"@))
        }),
{
    if text::str_eq(email, ROBOT_EMAIL) {
        Ok(())
    } else {
        refuse(FORBIDDEN, "Forbidden")
    }
}

/// The least that the market maker's account is topped up to.
pub fn robot_floors() -> (r: Vec<Grant>)
    ensures
        grant_views(r@) == seq![
            ("USDT"@, 1_000_000_000_000_000i64),
            ("BTC"@, 1_000_000_000_000i64),
            ("ETH"@, 100_000_000_000_000i64),
            ("SOL"@, 1_000_000_000_000_000i64),
        ],
{
    four_grants(
        1_000_000_000_000_000,
        1_000_000_000_000,
        100_000_000_000_000,
        1_000_000_000_000_000,
    )
}

/// The least that the demo account is topped up to.
pub fn demo_floors() -> (r: Vec<Grant>)
    ensures
        grant_views(r@) == seq![
            ("USDT"@, 10_000_000_000_000i64),
            ("BTC"@, 500_000_000i64),
            ("ETH"@, 5_000_000_000i64),
            ("SOL"@, 100_000_000_000i64),
        ],
{
    four_grants(10_000_000_000_000, 500_000_000, 5_000_000_000, 100_000_000_000)
}

/// A row of limit orders of the demo account: prices start at `first_price` and
/// move by `step` for each further order.
#[derive(Debug, Clone, Copy)]
pub struct SeedPlan {
    pub symbol: &'static str,
    pub side: Side,
    pub first_price: i64,
    pub step: i64,
    pub quantity: AmountAtoms,
}

/// How many orders a row holds.
pub const SEED_ROW_LEN: u8 = 5;

/// The rows of the demo account; prices in whole units.
pub fn seed_plans() -> (r: Vec<SeedPlan>)
    ensures
        r@.len() == 6,
        forall|i: int|
            0 <= i < 6 ==> {
                let p = #[trigger] r@[i];
                &&& p.symbol@ == (if i < 2 {
                    "ETH_USDT"@
                } else if i < 4 {
                    "SOL_USDT"@
                } else {
                    "BTC_USDT"@
                })
                &&& p.side == (if i % 2 == 0 {
                    Side::Buy
                } else {
                    Side::Sell
                })
                &&& p.first_price == seq![2990int, 3010, 149, 151, 50800, 51200][i]
                &&& p.step == seq![-10int, 10, -1, 1, -100, 100][i]
                &&& p.quantity.0 == seq![
                    50_000_000int,
                    50_000_000,
                    1_000_000_000,
                    1_000_000_000,
                    10_000_000,
                    10_000_000,
                ][i]
            },
{
    let mut out: Vec<SeedPlan> = Vec::new();
    let eth = AmountAtoms::from_atoms(50_000_000);
    let sol = AmountAtoms::from_atoms(1_000_000_000);
    let btc = AmountAtoms::from_atoms(10_000_000);
    out.push(seed_plan("ETH_USDT", Side::Buy, 2990, -10, eth));
    out.push(seed_plan("ETH_USDT", Side::Sell, 3010, 10, eth));
    out.push(seed_plan("SOL_USDT", Side::Buy, 149, -1, sol));
    out.push(seed_plan("SOL_USDT", Side::Sell, 151, 1, sol));
    out.push(seed_plan("BTC_USDT", Side::Buy, 50800, -100, btc));
    out.push(seed_plan("BTC_USDT", Side::Sell, 51200, 100, btc));
    out
}

fn seed_plan(
    symbol: &'static str,
    side: Side,
    first_price: i64,
    step: i64,
    quantity: AmountAtoms,
) -> (r: SeedPlan)
    ensures
        r == (SeedPlan { symbol, side, first_price, step, quantity }),
{
    SeedPlan { symbol, side, first_price, step, quantity }
}

/// An order of the demo account.
#[derive(Debug)]
pub struct SeedOrder {
    pub price: AmountAtoms,
    pub quantity: AmountAtoms,
    /// What backs a buy; zero for a sell.
    pub freeze_price: AmountAtoms,
    pub freeze_asset: String,
    pub freeze_amount: AmountAtoms,
}

/// The price of one order of a row, in atoms.
pub open spec fn seed_price(plan: SeedPlan, i: int) -> int {
    (plan.first_price + i * plan.step) * money::AMOUNT_SCALE
}

/// The order at a place of a row, with what has to be set aside for it.
pub fn seed_order(plan: &SeedPlan, i: u8) -> (r: Option<SeedOrder>)
    requires
        money::fits_i64(i * plan.step),
        money::fits_i64(plan.first_price + i * plan.step),
        money::fits_i64(seed_price(*plan, i as int)),
    ensures
        ({
            let price = AmountAtoms(seed_price(*plan, i as int) as i64);
            let backing = order_entry::backing_price(plan.side, Some(price), None);
            let (base, quote) = order_entry::assets_of(plan.symbol@);
            let reserve = order_entry::reservation(plan.side, backing, plan.quantity, base, quote);
            match r {
                Some(o) => {
                    &&& o.price == price
                    &&& o.quantity == plan.quantity
                    &&& o.freeze_price == backing
                    &&& reserve == Ok::<(Seq<char>, AmountAtoms), ReserveError>(
                        (o.freeze_asset@, o.freeze_amount),
                    )
                },
                None => reserve is Err,
            }
        }),
{
    let price = AmountAtoms::from_atoms(
        (plan.first_price + i as i64 * plan.step) * money::AMOUNT_SCALE,
    );
    let freeze_price = order_entry::compute_backing_price(plan.side, Some(price), None);
    let (base, quote) = order_entry::split_assets(plan.symbol);
    match order_entry::reserve(
        plan.side,
        freeze_price,
        plan.quantity,
        base.as_str(),
        quote.as_str(),
    ) {
        Ok((freeze_asset, freeze_amount)) => Some(
            SeedOrder { price, quantity: plan.quantity, freeze_price, freeze_asset, freeze_amount },
        ),
        Err(_) => None,
    }
}

/// A service is let in only with the very token that is set up, sent as a
/// bearer token, and never where that token is short or there is none.
pub proof fn law_only_the_set_up_token_is_let_in(
    expected: Option<Seq<char>>,
    header: Option<Seq<char>>,
)
    ensures
        authorized(expected, header) ==> expected is Some && header is Some && header->0
            == "Bearer "@ + expected->0,
        authorized(expected, header) ==> vstd::utf8::encode_utf8(expected->0).len() >= 32,
        expected matches Some(e) ==> (vstd::utf8::encode_utf8(e).len() >= 32 ==> authorized(
            expected,
            Some("Bearer "@ + e),
        )),
{
    let b = "Bearer "@;
    if authorized(expected, header) {
        let h = header->0;
        assert(h =~= b + h.skip(b.len() as int));
    }
    if expected is Some {
        let h = b + expected->0;
        assert(h.take(b.len() as int) =~= b);
        assert(h.skip(b.len() as int) =~= expected->0);
    }
}

/// An order is let through where its user is not throttled and belongs to this
/// desk, its symbol is open or the order only reduces, and it is on the grid.
/// The first of these that fails is the answer.
pub proof fn law_gate_asks_in_order(
    throttled: Option<Seq<char>>,
    user_id: i64,
    desk_id: u16,
    halted: bool,
    req: PlaceOrderRequest,
)
    ensures
        ({
            let here = counter_shard::desk_owns(desk_id as int, user_id as int);
            let shape = symbol_rules::shape_of(
                req.symbol@,
                req.order_type@,
                req.price,
                req.quantity,
            );
            &&& gate_of(throttled, user_id, desk_id, halted, req) is Ok <==> throttled is None && here
                && (!halted || req.reduce_only) && shape is Ok
            &&& gate_of(throttled, user_id, desk_id, halted, req) matches Ok(s) ==> shape == Ok::<
                FixedOrderShape,
                Seq<char>,
            >(s)
            &&& gate_of(throttled, user_id, desk_id, halted, req) matches Err((status, reason)) ==> {
                &&& throttled matches Some(why) ==> status == 429 && reason == why
                &&& throttled is None && !here ==> status == 421
                &&& throttled is None && here && halted && !req.reduce_only ==> status == 503
                &&& throttled is None && here && (!halted || req.reduce_only) ==> status == 400
                    && shape == Err::<FixedOrderShape, Seq<char>>(reason)
            }
        }),
{
}

/// An entered buy sets aside the quote asset for its price times its quantity,
/// an entered sell the quantity in the base asset.
pub proof fn law_entry_sets_aside_by_side(
    req: PlaceOrderRequest,
    engines: bool,
    engine: bool,
    best: Option<AmountAtoms>,
)
    ensures
        entry_of(req, engines, engine, best) matches Ok(e) ==> {
            &&& order_entry::side_of(req.side@) == Some(e.side)
            &&& req.side@ == "sell"@ ==> e.side == Side::Sell
            &&& req.side@ == "buy"@ ==> e.side == Side::Buy
            &&& engines ==> engine
            &&& e.side == Side::Sell ==> e.freeze_asset == e.base && e.freeze_amount == req.quantity
                && e.freeze_price.0 == 0
            &&& e.side == Side::Buy && req.price is Some ==> e.freeze_asset == e.quote
                && e.freeze_price == req.price->0 && e.freeze_amount.0 * 100_000_000 - 50_000_000
                <= (req.price->0).0 * req.quantity.0 < e.freeze_amount.0 * 100_000_000 + 50_000_000
        },
        engines && !engine ==> entry_of(req, engines, engine, best) is Err,
{
    reveal_strlit("buy");
    reveal_strlit("sell");
    assert("buy"@.len() == 3 && "sell"@.len() == 4);
    let (base, quote) = order_entry::assets_of(req.symbol@);
    order_entry::law_order_sets_aside_what_it_may_cost(
        Side::Buy,
        req.price,
        best,
        req.quantity,
        base,
        quote,
    );
}

/// A cancelled order is given back what its unfilled part had set aside.
pub proof fn law_cancel_gives_back_the_rest(
    symbol: Seq<char>,
    price: AmountAtoms,
    quantity: AmountAtoms,
    filled: AmountAtoms,
)
    requires
        0 <= filled.0 < quantity.0,
        price.0 > 0,
        price.0 * (quantity.0 - filled.0) < i64::MAX * 100_000_000 - 100_000_000,
    ensures
        cancel_release(symbol, "sell"@, Some(price), quantity, filled) == Some(
            (
                order_entry::assets_of(symbol).0,
                AmountAtoms((quantity.0 - filled.0) as i64),
            ),
        ),
        cancel_release(symbol, "buy"@, Some(price), quantity, filled) matches Some((asset, amount))
            && asset == order_entry::assets_of(symbol).1 && amount.0 * 100_000_000 - 50_000_000
            <= price.0 * (quantity.0 - filled.0) < amount.0 * 100_000_000 + 50_000_000,
        cancel_release(symbol, "buy"@, Some(price), quantity, quantity) is None,
        cancel_release(symbol, "sell"@, Some(price), quantity, quantity) is None,
{
    reveal_strlit("buy");
    reveal_strlit("sell");
    assert("buy"@.len() == 3 && "sell"@.len() == 4);
    let rest = order_entry::remaining(quantity, filled);
    let (base, quote) = order_entry::assets_of(symbol);
    order_entry::law_release_mirrors_reservation(Side::Buy, price, rest, base, quote);
    order_entry::law_release_mirrors_reservation(Side::Sell, price, rest, base, quote);
}

/// The orders that a cancellation of all deleted are counted one by one.
pub proof fn law_deletions_are_counted(deleted: Seq<bool>, more: bool)
    ensures
        deleted_count(deleted.push(more)) == deleted_count(deleted) + (if more {
            1int
        } else {
            0
        }),
        deleted_count(Seq::empty()) == 0,
        0 <= deleted_count(deleted) <= deleted.len(),
    decreases deleted.len(),
{
    assert(deleted.push(more).drop_last() =~= deleted);
    if deleted.len() > 0 {
        law_deletions_are_counted(deleted.drop_last(), more);
    }
}

/// The open and the past orders of a user are all their orders: a status is
/// listed as open while an order can still trade, and as past once it cannot.
pub proof fn law_listings_split_all_orders(status: DbOrderStatus)
    ensures
        statuses("open"@).contains(status.name()) <==> status.open(),
        statuses("history"@).contains(status.name()) <==> !status.open(),
{
    reveal_strlit("open");
    reveal_strlit("history");
    reveal_strlit("PENDING");
    reveal_strlit("TRADING");
    reveal_strlit("COMPLETED");
    reveal_strlit("CANCELED");
    reveal_strlit("REJECTED");
    assert("open"@.len() == 4 && "history"@.len() == 7);
    assert("PENDING"@[0] == 'P' && "TRADING"@[0] == 'T' && "COMPLETED"@[0] == 'C' && "CANCELED"@[0]
        == 'C' && "REJECTED"@[0] == 'R' && "COMPLETED"@[1] == 'O' && "CANCELED"@[1] == 'A');
    let o = statuses("open"@);
    let h = statuses("history"@);
    assert(o[0] == "PENDING"@ && o[1] == "TRADING"@ && o.len() == 2);
    assert(h[0] == "COMPLETED"@ && h[1] == "CANCELED"@ && h[2] == "REJECTED"@ && h.len() == 3);
}

/// A forced close trades all lots against the position and cannot add to it.
/// Its limit gives way a twentieth of the mark, against the position.
pub proof fn law_forced_close_gives_way_a_twentieth(p: PositionRiskState, mark: int)
    requires
        mark > 0,
        mark + mark / 20 <= i64::MAX,
    ensures
        ({
            let o = close_order(p, mark);
            &&& o.qty_lots == p.qty_lots
            &&& o.reduce_only
            &&& p.side == PositionSide::Long ==> o.side == 1 && 20 * (mark - o.price_ticks) <= mark
                < 20 * (mark - o.price_ticks) + 20
            &&& p.side == PositionSide::Short ==> o.side == 0 && 20 * (o.price_ticks - mark) <= mark
                < 20 * (o.price_ticks - mark) + 20
            &&& (if o.side == 0 {
                1int
            } else {
                -1int
            }) == -risk::value::direction(p.side)
        }),
{
}

/// The margin of a liquidation order times the leverage is its notional at the
/// mark, less than the leverage apart; without a mark it is nothing.
pub proof fn law_liquidation_margin_is_of_the_mark(mark: int, lots: int, rules: SymbolRules)
    requires
        rules.default_leverage > 0,
        rules.notional_scale > 0,
        risk::value::worth_fits(mark, lots, rules.notional_scale as int),
    ensures
        mark <= 0 ==> margin_at(mark, lots, rules) == 0,
        mark > 0 ==> exists|worth: int| #[trigger]
            risk::value::is_worth(worth, mark, lots, rules.notional_scale as int)
                && risk::value::within(
                margin_at(mark, lots, rules) * rules.default_leverage,
                worth,
                rules.default_leverage as int,
            ),
{
    let lev = rules.default_leverage as int;
    if mark > 0 {
        risk::value::lemma_notional(mark, lots, rules.notional_scale as int);
        let n = risk::calc::notional(mark, lots, rules.notional_scale as int);
        money::law_division_rounds_toward_zero(n, lev);
        assert(risk::value::is_worth(n, mark, lots, rules.notional_scale as int));
    } else {
        money::law_division_rounds_toward_zero(0, lev);
    }
}

/// A mark that is set by force stays at its price however often that price is
/// fed in again.
pub proof fn law_forced_mark_stays(
    v: risk::engine::RiskView,
    symbol: Symbol,
    price: i64,
    scale: i64,
    times: nat,
)
    requires
        v.marks.contains_key(symbol),
        v.marks[symbol] == price,
    ensures
        fed(v, symbol, price, scale, times).0.marks.contains_key(symbol),
        fed(v, symbol, price, scale, times).0.marks[symbol] == price,
    decreases times,
{
    if times > 0 {
        law_forced_mark_stays(v, symbol, price, scale, (times - 1) as nat);
        let before = fed(v, symbol, price, scale, (times - 1) as nat).0;
        if price > 0 && risk::engine::mark_fits(before, symbol, price, scale) {
            risk::value::law_mark_moves_a_tenth_of_the_way(before, symbol, price, scale);
        }
    }
}

/// A trigger that is taken is on the grid of its symbol and trades what was
/// asked: a buy waits for the mark to rise and a sell for it to fall, unless
/// the other way was asked for.
pub proof fn law_taken_trigger_is_what_was_asked(id: i64, user_id: i64, req: PlaceTriggerRequest)
    ensures
        trigger_of(id, user_id, req) matches Ok((when, t)) ==> ({
            let rules = symbol_rules::rules_of(req.symbol@);
            &&& t.id == id && t.user_id == user_id
            &&& req.side@ == "buy"@ ==> t.side == 0
            &&& req.side@ == "sell"@ ==> t.side == 1
            &&& t.is_market <==> req.order_type@ == "market"@
            &&& req.trigger_price matches Some(p) && t.trigger_price_ticks * rules.price_tick_atoms
                == p.0
            &&& req.quantity matches Some(q) && t.qty_lots * rules.quantity_step_atoms == q.0
            &&& t.price_ticks matches Some(ticks) ==> (req.price matches Some(Some(p)) && ticks
                * rules.price_tick_atoms == p.0)
            &&& req.trigger_when is None ==> (when == TriggerWhen::Rising <==> t.side == 0)
            &&& req.trigger_when matches Some(w) ==> when.db_name() == w@
        }),
{
    reveal_strlit("buy");
    reveal_strlit("sell");
    assert("buy"@.len() == 3 && "sell"@.len() == 4);
    let rules = symbol_rules::rules_of(req.symbol@);
    assert(rules.wf());
    if req.trigger_price is Some {
        symbol_rules::law_grid_round_trip(rules, req.trigger_price->0, 1);
    }
    if req.quantity is Some {
        symbol_rules::law_grid_round_trip(rules, req.quantity->0, 1);
    }
    if req.price is Some && (req.price->0) is Some {
        symbol_rules::law_grid_round_trip(rules, (req.price->0)->0, 1);
    }
}

/// The opening equity of a margin account is the balance of its first row in
/// the settlement asset, and nothing where there is none.
pub proof fn law_equity_opens_with_the_settlement_asset(
    rows: Seq<(Seq<char>, AccountBalance)>,
    k: int,
)
    requires
        0 <= k <= rows.len(),
        forall|i: int| 0 <= i < k ==> (#[trigger] rows[i]).0 != "USDT"@,
        k < rows.len() ==> rows[k].0 == "USDT"@,
    ensures
        k < rows.len() ==> settlement_balance(rows) == rows[k].1.balance_atoms,
        k == rows.len() ==> settlement_balance(rows) == 0,
    decreases rows.len(),
{
    if k > 0 {
        let rest = rows.drop_first();
        assert(rows[0].0 != "USDT"@);
        assert forall|i: int| 0 <= i < k - 1 implies (#[trigger] rest[i]).0 != "USDT"@ by {
            assert(rest[i] == rows[i + 1]);
        }
        law_equity_opens_with_the_settlement_asset(rest, k - 1);
    }
}

/// A cache that was warmed shows the last row of each asset of the user and
/// leaves all else as it was.
pub proof fn law_warming_shows_the_last_row(
    m: Map<i64, Map<Seq<char>, AccountBalance>>,
    user_id: i64,
    rows: Seq<(Seq<char>, AccountBalance)>,
    asset: Seq<char>,
    k: int,
    other: i64,
)
    requires
        -1 <= k < rows.len(),
        k >= 0 ==> rows[k].0 == asset,
        forall|i: int| k < i < rows.len() ==> (#[trigger] rows[i]).0 != asset,
    ensures
        order_entry::balance_of(warmed(m, user_id, rows), user_id, asset) == (if k >= 0 {
            Some(rows[k].1)
        } else {
            order_entry::balance_of(m, user_id, asset)
        }),
        other != user_id ==> order_entry::balance_of(warmed(m, user_id, rows), other, asset)
            == order_entry::balance_of(m, other, asset),
    decreases rows.len(),
{
    if rows.len() > 0 {
        let d = rows.drop_last();
        let last = rows[rows.len() - 1];
        if k == rows.len() - 1 {
            law_warming_leaves_others(m, user_id, d, asset, other);
        } else {
            assert forall|i: int| k < i < d.len() implies (#[trigger] d[i]).0 != asset by {
                assert(d[i] == rows[i]);
            }
            assert(last.0 != asset);
            law_warming_shows_the_last_row(m, user_id, d, asset, k, other);
        }
    }
}

/// Warming the cache for one user touches no other.
pub proof fn law_warming_leaves_others(
    m: Map<i64, Map<Seq<char>, AccountBalance>>,
    user_id: i64,
    rows: Seq<(Seq<char>, AccountBalance)>,
    asset: Seq<char>,
    other: i64,
)
    ensures
        other != user_id ==> order_entry::balance_of(warmed(m, user_id, rows), other, asset)
            == order_entry::balance_of(m, other, asset),
    decreases rows.len(),
{
    if rows.len() > 0 {
        law_warming_leaves_others(m, user_id, rows.drop_last(), asset, other);
    }
}

/// The orders of a demo row are a step apart, in whole units.
pub proof fn law_demo_row_goes_step_by_step(plan: SeedPlan, i: int)
    ensures
        seed_price(plan, i + 1) - seed_price(plan, i) == plan.step * 100_000_000,
        seed_price(plan, 0) == plan.first_price * 100_000_000,
{
    assert((i + 1) * plan.step == i * plan.step + plan.step) by (nonlinear_arith);
    assert(0 * plan.step == 0);
}

/// Each feeding of a positive price is one mark of that price; a price that is
/// not positive changes nothing, and neither does one whose values do not fit.
pub proof fn law_each_feeding_is_one_mark(
    v: risk::engine::RiskView,
    symbol: Symbol,
    price: i64,
    scale: i64,
    times: nat,
)
    ensures
        price <= 0 ==> fed(v, symbol, price, scale, times) == (v, true),
        fed(v, symbol, price, scale, 0) == (v, true),
        ({
            let (before, ok) = fed(v, symbol, price, scale, times);
            let (after, still) = fed(v, symbol, price, scale, times + 1);
            &&& ok && price > 0 && risk::engine::mark_fits(before, symbol, price, scale) ==> after
                == risk::engine::marked(before, symbol, price, scale) && still
            &&& ok && price > 0 && !risk::engine::mark_fits(before, symbol, price, scale) ==> after
                == before && !still
            &&& !ok ==> after == before && !still
        }),
    decreases times,
{
    if times > 0 {
        law_each_feeding_is_one_mark(v, symbol, price, scale, (times - 1) as nat);
    }
}

/// A frame that sets a balance is kept by the store as that balance.
pub proof fn law_balance_frame_is_kept_as_the_balance(
    p: AccountSetPayload,
    user_id: i64,
    asset: Seq<char>,
    b: AccountBalance,
)
    requires
        sets_balance(p, user_id, asset, b),
        0 < asset.len() <= 16,
        forall|i: int|
            0 <= i < asset.len() ==> 0 < (#[trigger] asset[i]) as int && asset[i] as int <= 0x7f,
    ensures
        crate::pg_store::account_of(p) matches Ok(row) && row.user_id == user_id && row.asset
            == asset && row.balance_atoms == b.balance_atoms && row.frozen_atoms == b.frozen_atoms,
{
    persist_event::law_pack_round_trip(asset);
}

/// Only the end of a withdrawal moves money: its confirmation or its failure.
pub proof fn law_only_endings_move_funds(m: WithdrawalMove)
    ensures
        m is Advance ==> !m.ends(),
        m is Confirm ==> m.ends(),
        m is Fail ==> m.ends(),
{
}

} // verus!
