//! Sessions of clients on a socket: what each message asks for, which orders
//! are taken in, what a cancellation gives back, and when a connection is
//! considered dead.
use crate::money;
use crate::money::{AccountBalance, AmountAtoms};
use crate::order::{Side, TimeInForce};
use crate::order_entry;
use crate::order_entry::{AccountCache, ReserveError};
use crate::order_state::WsOrderStatus;
use crate::symbol_rules;
use crate::symbol_rules::SymbolRules;
use crate::text;
use crate::text_map::TextMap;
use crate::ws_message;
use crate::ws_message::{ClientMsg, OrderRequest};
use crate::ws_sbe::{
    WS_STATUS_CANCELED, WS_STATUS_FILLED, WS_STATUS_OPEN, WS_STATUS_PARTIAL_FILL,
    WS_STATUS_REJECTED,
};
use vstd::prelude::*;

verus! {

/// The status byte of a frame.
pub open spec fn status_byte(status: WsOrderStatus) -> u8 {
    match status {
        WsOrderStatus::Open => WS_STATUS_OPEN,
        WsOrderStatus::Partial | WsOrderStatus::PartialFill => WS_STATUS_PARTIAL_FILL,
        WsOrderStatus::Filled => WS_STATUS_FILLED,
        WsOrderStatus::Canceled => WS_STATUS_CANCELED,
        WsOrderStatus::Rejected => WS_STATUS_REJECTED,
    }
}

pub fn ws_status_to_byte(status: WsOrderStatus) -> (r: u8)
    ensures
        r == status_byte(status),
{
    match status {
        WsOrderStatus::Open => WS_STATUS_OPEN,
        WsOrderStatus::Partial => WS_STATUS_PARTIAL_FILL,
        WsOrderStatus::PartialFill => WS_STATUS_PARTIAL_FILL,
        WsOrderStatus::Filled => WS_STATUS_FILLED,
        WsOrderStatus::Canceled => WS_STATUS_CANCELED,
        WsOrderStatus::Rejected => WS_STATUS_REJECTED,
    }
}

/// The most orders of a batch that are looked at.
pub const MAX_BATCH_ORDERS: usize = 40;

/// How often a connection is asked for a sign of life.
pub const PING_INTERVAL_MS: u64 = 30_000;

/// An answer to a client.
#[derive(Debug)]
pub enum Reply {
    Error(String),
    AuthOk(i64),
    AuthError(String),
    Pong,
    OrderRejected(String),
    /// The order was handed to the engine under this id.
    OrderSubmitted(u64),
    /// The cancellation of this order was handed to the engine.
    CancelSubmitted(u64),
    OrdersPlaced { batch_id: String, results: Vec<(u64, u64, u8)> },
    CancelAllOk(u32),
    BatchCancelOk(u32),
}

pub enum ReplyView {
    Error(Seq<char>),
    AuthOk(i64),
    AuthError(Seq<char>),
    Pong,
    OrderRejected(Seq<char>),
    OrderSubmitted(u64),
    CancelSubmitted(u64),
    OrdersPlaced { batch_id: Seq<char>, results: Seq<(u64, u64, u8)> },
    CancelAllOk(u32),
    BatchCancelOk(u32),
}

impl Reply {
    pub open spec fn view(self) -> ReplyView {
        match self {
            Reply::Error(t) => ReplyView::Error(t@),
            Reply::AuthOk(id) => ReplyView::AuthOk(id),
            Reply::AuthError(t) => ReplyView::AuthError(t@),
            Reply::Pong => ReplyView::Pong,
            Reply::OrderRejected(t) => ReplyView::OrderRejected(t@),
            Reply::OrderSubmitted(id) => ReplyView::OrderSubmitted(id),
            Reply::CancelSubmitted(id) => ReplyView::CancelSubmitted(id),
            Reply::OrdersPlaced { batch_id, results } => ReplyView::OrdersPlaced {
                batch_id: batch_id@,
                results: results@,
            },
            Reply::CancelAllOk(n) => ReplyView::CancelAllOk(n),
            Reply::BatchCancelOk(n) => ReplyView::BatchCancelOk(n),
        }
    }
}

/// What a message asks for.
#[derive(Debug)]
pub enum Step {
    /// Answer, and nothing else.
    Answer(Reply),
    CheckToken(String),
    CheckApiKey(String),
    /// Send the last order books and tickers of these symbols.
    Snapshots { depth: Vec<String>, ticker: Vec<String> },
    /// Neither an answer nor anything to do.
    Quiet,
    Place { user_id: i64, order: OrderRequest },
    PlaceBatch { user_id: i64, batch_id: String, orders: Vec<Option<OrderRequest>> },
    Cancel { user_id: i64, order_id: i64 },
    CancelMany { user_id: i64, order_ids: Vec<i64> },
    CancelSymbol { user_id: i64, symbol: String },
    CancelAll { user_id: i64 },
}

pub enum StepView {
    Answer(ReplyView),
    CheckToken(Seq<char>),
    CheckApiKey(Seq<char>),
    Snapshots { depth: Seq<Seq<char>>, ticker: Seq<Seq<char>> },
    Quiet,
    Place { user_id: i64, order: ws_message::RequestView },
    PlaceBatch { user_id: i64, batch_id: Seq<char>, orders: Seq<Option<ws_message::RequestView>> },
    Cancel { user_id: i64, order_id: i64 },
    CancelMany { user_id: i64, order_ids: Seq<i64> },
    CancelSymbol { user_id: i64, symbol: Seq<char> },
    CancelAll { user_id: i64 },
}

impl Step {
    pub open spec fn view(self) -> StepView {
        match self {
            Step::Answer(r) => StepView::Answer(r.view()),
            Step::CheckToken(t) => StepView::CheckToken(t@),
            Step::CheckApiKey(k) => StepView::CheckApiKey(k@),
            Step::Snapshots { depth, ticker } => StepView::Snapshots {
                depth: text::text_views(depth@),
                ticker: text::text_views(ticker@),
            },
            Step::Quiet => StepView::Quiet,
            Step::Place { user_id, order } => StepView::Place { user_id, order: order.view() },
            Step::PlaceBatch { user_id, batch_id, orders } => StepView::PlaceBatch {
                user_id,
                batch_id: batch_id@,
                orders: ws_message::request_options(orders@),
            },
            Step::Cancel { user_id, order_id } => StepView::Cancel { user_id, order_id },
            Step::CancelMany { user_id, order_ids } => StepView::CancelMany {
                user_id,
                order_ids: order_ids@,
            },
            Step::CancelSymbol { user_id, symbol } => StepView::CancelSymbol {
                user_id,
                symbol: symbol@,
            },
            Step::CancelAll { user_id } => StepView::CancelAll { user_id },
        }
    }
}

/// What follows a prefix in the texts that start with it.
pub open spec fn all_behind(s: Seq<Seq<char>>, prefix: Seq<char>) -> Seq<Seq<char>>
    decreases s.len(),
{
    if s.len() == 0 {
        seq![]
    } else {
        match text::behind(s.last(), prefix) {
            Some(t) => all_behind(s.drop_last(), prefix).push(t),
            None => all_behind(s.drop_last(), prefix),
        }
    }
}

/// The state of a session: who has signed in and what is subscribed to.
pub struct SessionView {
    pub user_id: Option<i64>,
    pub subscribed: Map<Seq<char>, ()>,
}

/// A session of a client.
pub struct WsSession {
    user_id: Option<i64>,
    subscribed: TextMap<()>,
}

/// The subscriptions with some channels added.
pub open spec fn with_channels(subscribed: Map<Seq<char>, ()>, channels: Seq<Seq<char>>) -> Map<
    Seq<char>,
    (),
>
    decreases channels.len(),
{
    if channels.len() == 0 {
        subscribed
    } else {
        with_channels(subscribed, channels.drop_last()).insert(channels.last(), ())
    }
}

/// The subscriptions with some channels taken out.
pub open spec fn without_channels(subscribed: Map<Seq<char>, ()>, channels: Seq<Seq<char>>) -> Map<
    Seq<char>,
    (),
>
    decreases channels.len(),
{
    if channels.len() == 0 {
        subscribed
    } else {
        without_channels(subscribed, channels.drop_last()).remove(channels.last())
    }
}

/// The first orders of a batch.
pub open spec fn capped<T>(orders: Seq<T>) -> Seq<T> {
    if orders.len() > MAX_BATCH_ORDERS {
        orders.take(MAX_BATCH_ORDERS as int)
    } else {
        orders
    }
}

pub open spec fn unauthenticated() -> StepView {
    StepView::Answer(ReplyView::Error("Not authenticated"@))
}

impl SessionView {
    /// What a message asks for in a session.
    pub open spec fn step(self, msg: Option<ws_message::MsgView>) -> StepView {
        match msg {
            None => StepView::Answer(ReplyView::Error("Invalid message format"@)),
            Some(ws_message::MsgView::Auth { token }) => StepView::CheckToken(token),
            Some(ws_message::MsgView::ApiKeyAuth { api_key }) => StepView::CheckApiKey(api_key),
            Some(ws_message::MsgView::Subscribe { channels }) => StepView::Snapshots {
                depth: all_behind(channels, "depth."@),
                ticker: all_behind(channels, "ticker."@),
            },
            Some(ws_message::MsgView::Unsubscribe { channels }) => StepView::Quiet,
            Some(ws_message::MsgView::Ping) => StepView::Answer(ReplyView::Pong),
            Some(ws_message::MsgView::PlaceOrder(order)) => match self.user_id {
                Some(user_id) => StepView::Place { user_id, order },
                None => StepView::Answer(ReplyView::OrderRejected("Not authenticated"@)),
            },
            Some(ws_message::MsgView::PlaceOrders { batch_id, orders }) => match self.user_id {
                Some(user_id) => StepView::PlaceBatch { user_id, batch_id, orders: capped(orders) },
                None => unauthenticated(),
            },
            Some(ws_message::MsgView::CancelOrder { order_id }) => match self.user_id {
                Some(user_id) => StepView::Cancel { user_id, order_id },
                None => unauthenticated(),
            },
            Some(ws_message::MsgView::BatchCancel { order_ids }) => match self.user_id {
                Some(user_id) => if order_ids.len() == 0 {
                    StepView::Answer(ReplyView::BatchCancelOk(0))
                } else {
                    StepView::CancelMany { user_id, order_ids }
                },
                None => unauthenticated(),
            },
            Some(ws_message::MsgView::CancelSymbol { symbol }) => match self.user_id {
                Some(user_id) => StepView::CancelSymbol { user_id, symbol },
                None => unauthenticated(),
            },
            Some(ws_message::MsgView::CancelAll) => match self.user_id {
                Some(user_id) => StepView::CancelAll { user_id },
                None => unauthenticated(),
            },
        }
    }

    /// The session after a message.
    pub open spec fn after(self, msg: Option<ws_message::MsgView>) -> SessionView {
        SessionView {
            user_id: self.user_id,
            subscribed: match msg {
                Some(ws_message::MsgView::Subscribe { channels }) => with_channels(
                    self.subscribed,
                    channels,
                ),
                Some(ws_message::MsgView::Unsubscribe { channels }) => without_channels(
                    self.subscribed,
                    channels,
                ),
                _ => self.subscribed,
            },
        }
    }
}

fn strip_all(channels: &Vec<String>, prefix: &str) -> (r: Vec<String>)
    ensures
        text::text_views(r@) == all_behind(text::text_views(channels@), prefix@),
{
    let mut out: Vec<String> = Vec::new();
    let mut i: usize = 0;
    let ghost all = text::text_views(channels@);
    while i < channels.len()
        invariant
            i <= channels@.len(),
            all == text::text_views(channels@),
            text::text_views(out@) == all_behind(all.take(i as int), prefix@),
        decreases channels@.len() - i,
    {
        proof {
            assert(all.take(i + 1).drop_last() =~= all.take(i as int));
            assert(all.take(i + 1).last() == channels@[i as int]@);
        }
        if let Some(t) = text::strip_prefix(channels[i].as_str(), prefix) {
            let ghost before = out@;
            out.push(t);
            proof {
                assert(text::text_views(out@) =~= text::text_views(before).push(t@));
            }
        }
        i = i + 1;
    }
    proof {
        assert(all.take(i as int) =~= all);
    }
    out
}

fn refuse() -> (r: Step)
    ensures
        r.view() == unauthenticated(),
{
    Step::Answer(Reply::Error(text::owned("Not authenticated")))
}

fn cap_orders(orders: Vec<Option<OrderRequest>>) -> (r: Vec<Option<OrderRequest>>)
    ensures
        ws_message::request_options(r@) == capped(ws_message::request_options(orders@)),
        r@.len() <= MAX_BATCH_ORDERS,
{
    let mut orders = orders;
    let ghost all = orders@;
    orders.truncate(MAX_BATCH_ORDERS);
    proof {
        assert(ws_message::request_options(orders@) =~= capped(ws_message::request_options(all)));
    }
    orders
}

impl WsSession {
    pub closed spec fn view(&self) -> SessionView {
        SessionView { user_id: self.user_id, subscribed: self.subscribed.view() }
    }

    pub closed spec fn wf(&self) -> bool {
        self.subscribed.wf()
    }

    pub fn new() -> (r: WsSession)
        ensures
            r.wf(),
            r.view() == (SessionView { user_id: None, subscribed: Map::empty() }),
    {
        WsSession { user_id: None, subscribed: TextMap::new() }
    }

    /// Who has signed in.
    pub fn user(&self) -> (r: Option<i64>)
        ensures
            r == self.view().user_id,
    {
        self.user_id
    }

    /// Whether a channel is subscribed to.
    pub fn is_subscribed(&self, channel: &str) -> (r: bool)
        requires
            self.wf(),
        ensures
            r == self.view().subscribed.contains_key(channel@),
    {
        self.subscribed.get(channel).is_some()
    }

    /// Whether any channel is subscribed to.
    pub fn subscribes(&self) -> (r: bool)
        requires
            self.wf(),
        ensures
            r == (self.view().subscribed != Map::<Seq<char>, ()>::empty()),
    {
        !self.subscribed.is_empty()
    }

    fn subscribe(&mut self, channels: &Vec<String>)
        requires
            old(self).wf(),
        ensures
            final(self).wf(),
            final(self).view() == (SessionView {
                user_id: old(self).view().user_id,
                subscribed: with_channels(
                    old(self).view().subscribed,
                    text::text_views(channels@),
                ),
            }),
    {
        let ghost all = text::text_views(channels@);
        let mut i: usize = 0;
        while i < channels.len()
            invariant
                i <= channels@.len(),
                all == text::text_views(channels@),
                self.wf(),
                self.user_id == old(self).user_id,
                self.subscribed.view() == with_channels(
                    old(self).subscribed.view(),
                    all.take(i as int),
                ),
            decreases channels@.len() - i,
        {
            self.subscribed.insert(channels[i].as_str(), ());
            proof {
                assert(all.take(i + 1).drop_last() =~= all.take(i as int));
            }
            i = i + 1;
        }
        proof {
            assert(all.take(i as int) =~= all);
        }
    }

    fn unsubscribe(&mut self, channels: &Vec<String>)
        requires
            old(self).wf(),
        ensures
            final(self).wf(),
            final(self).view() == (SessionView {
                user_id: old(self).view().user_id,
                subscribed: without_channels(
                    old(self).view().subscribed,
                    text::text_views(channels@),
                ),
            }),
    {
        let ghost all = text::text_views(channels@);
        let mut i: usize = 0;
        while i < channels.len()
            invariant
                i <= channels@.len(),
                all == text::text_views(channels@),
                self.wf(),
                self.user_id == old(self).user_id,
                self.subscribed.view() == without_channels(
                    old(self).subscribed.view(),
                    all.take(i as int),
                ),
            decreases channels@.len() - i,
        {
            self.subscribed.remove(channels[i].as_str());
            proof {
                assert(all.take(i + 1).drop_last() =~= all.take(i as int));
            }
            i = i + 1;
        }
        proof {
            assert(all.take(i as int) =~= all);
        }
    }

    /// Decides what a message asks for, and takes subscriptions over.
    pub fn route(&mut self, msg: Option<ClientMsg>) -> (r: Step)
        requires
            old(self).wf(),
        ensures
            final(self).wf(),
            r.view() == old(self).view().step(ws_message::msg_option(msg)),
            final(self).view() == old(self).view().after(ws_message::msg_option(msg)),
    {
        let msg = match msg {
            Some(m) => m,
            None => return Step::Answer(Reply::Error(text::owned("Invalid message format"))),
        };
        match msg {
            ClientMsg::Auth { token } => Step::CheckToken(token),
            ClientMsg::ApiKeyAuth { api_key } => Step::CheckApiKey(api_key),
            ClientMsg::Subscribe { channels } => {
                let depth = strip_all(&channels, "depth.");
                let ticker = strip_all(&channels, "ticker.");
                self.subscribe(&channels);
                Step::Snapshots { depth, ticker }
            },
            ClientMsg::Unsubscribe { channels } => {
                self.unsubscribe(&channels);
                Step::Quiet
            },
            ClientMsg::Ping => Step::Answer(Reply::Pong),
            ClientMsg::PlaceOrder(order) => match self.user_id {
                Some(user_id) => Step::Place { user_id, order },
                None => Step::Answer(Reply::OrderRejected(text::owned("Not authenticated"))),
            },
            ClientMsg::PlaceOrders { batch_id, orders } => match self.user_id {
                Some(user_id) => {
                    let orders = cap_orders(orders);
                    Step::PlaceBatch { user_id, batch_id, orders }
                },
                None => refuse(),
            },
            ClientMsg::CancelOrder { order_id } => match self.user_id {
                Some(user_id) => Step::Cancel { user_id, order_id },
                None => refuse(),
            },
            ClientMsg::BatchCancel { order_ids } => match self.user_id {
                Some(user_id) => {
                    if order_ids.len() == 0 {
                        Step::Answer(Reply::BatchCancelOk(0))
                    } else {
                        Step::CancelMany { user_id, order_ids }
                    }
                },
                None => refuse(),
            },
            ClientMsg::CancelSymbol { symbol } => match self.user_id {
                Some(user_id) => Step::CancelSymbol { user_id, symbol },
                None => refuse(),
            },
            ClientMsg::CancelAll => match self.user_id {
                Some(user_id) => Step::CancelAll { user_id },
                None => refuse(),
            },
        }
    }

    /// Takes over who has signed in, or says why nobody has.
    pub fn sign_in(&mut self, verdict: Result<i64, String>) -> (r: Reply)
        requires
            old(self).wf(),
        ensures
            final(self).wf(),
            final(self).view() == (SessionView {
                user_id: match verdict {
                    Ok(id) => Some(id),
                    Err(_) => old(self).view().user_id,
                },
                subscribed: old(self).view().subscribed,
            }),
            r.view() == (match verdict {
                Ok(id) => ReplyView::AuthOk(id),
                Err(reason) => ReplyView::AuthError(reason@),
            }),
    {
        match verdict {
            Ok(id) => {
                self.user_id = Some(id);
                Reply::AuthOk(id)
            },
            Err(reason) => Reply::AuthError(reason),
        }
    }

    /// Reads a message and decides what it asks for.
    pub fn handle_client_message(&mut self, message: &str) -> (r: Step)
        requires
            old(self).wf(),
        ensures
            final(self).wf(),
            r.view() == old(self).view().step(ws_message::message_of(message@)),
            final(self).view() == old(self).view().after(ws_message::message_of(message@)),
    {
        let msg = ClientMsg::parse(message);
        self.route(msg)
    }
}

/// The user that a step acts for.
pub open spec fn acts_for(step: StepView) -> Option<i64> {
    match step {
        StepView::Place { user_id, .. } => Some(user_id),
        StepView::PlaceBatch { user_id, .. } => Some(user_id),
        StepView::Cancel { user_id, .. } => Some(user_id),
        StepView::CancelMany { user_id, .. } => Some(user_id),
        StepView::CancelSymbol { user_id, .. } => Some(user_id),
        StepView::CancelAll { user_id } => Some(user_id),
        _ => None,
    }
}

/// Orders are placed and cancelled only for the user who has signed in, and a
/// message does not change who that is.
pub proof fn law_session_acts_for_its_user(
    session: SessionView,
    msg: Option<ws_message::MsgView>,
)
    ensures
        acts_for(session.step(msg)) is Some ==> acts_for(session.step(msg)) == session.user_id,
        session.after(msg).user_id == session.user_id,
{
}

proof fn lemma_channels(subscribed: Map<Seq<char>, ()>, channels: Seq<Seq<char>>, c: Seq<char>)
    ensures
        with_channels(subscribed, channels).contains_key(c) <==> subscribed.contains_key(c)
            || channels.contains(c),
        without_channels(subscribed, channels).contains_key(c) <==> subscribed.contains_key(c)
            && !channels.contains(c),
    decreases channels.len(),
{
    if channels.len() > 0 {
        let rest = channels.drop_last();
        lemma_channels(subscribed, rest, c);
        assert(channels =~= rest.push(channels.last()));
        if channels.contains(c) && c != channels.last() {
            let i = choose|i: int| 0 <= i < channels.len() && channels[i] == c;
            assert(rest[i] == c);
        }
        if rest.contains(c) {
            let i = choose|i: int| 0 <= i < rest.len() && rest[i] == c;
            assert(channels[i] == c);
        }
        if c == channels.last() {
            assert(channels[channels.len() - 1] == c);
        }
    }
}

/// A channel is subscribed to exactly when it was or is asked for, and no
/// longer once it is given up; giving up what was just asked for leaves the
/// other subscriptions as they were.
pub proof fn law_subscriptions_follow_requests(
    session: SessionView,
    channels: Seq<Seq<char>>,
    c: Seq<char>,
)
    ensures
        ({
            let joined = session.after(Some(ws_message::MsgView::Subscribe { channels }));
            let left = joined.after(Some(ws_message::MsgView::Unsubscribe { channels }));
            &&& joined.subscribed.contains_key(c) <==> session.subscribed.contains_key(c)
                || channels.contains(c)
            &&& left.subscribed.contains_key(c) <==> session.subscribed.contains_key(c)
                && !channels.contains(c)
        }),
{
    lemma_channels(session.subscribed, channels, c);
    let joined = with_channels(session.subscribed, channels);
    lemma_channels(joined, channels, c);
}

/// An order with its amounts.
#[derive(Debug)]
pub struct PricedOrder {
    pub client_order_id: String,
    pub symbol: String,
    pub side: String,
    pub order_type: String,
    pub time_in_force: Option<String>,
    pub price: Option<AmountAtoms>,
    pub qty: AmountAtoms,
}

/// Where orders of a symbol can go.
#[derive(Debug, Clone, Copy, PartialEq, Eq, Structural)]
pub struct Venue {
    /// Engines run within this process.
    pub engines: bool,
    /// One of them is for the symbol.
    pub engine: bool,
    /// Orders go to an engine elsewhere, through a command queue.
    pub queue: bool,
    /// The engine elsewhere knows the symbol, or no list of symbols is kept.
    pub listed: bool,
}

/// How an order is entered.
#[derive(Debug)]
pub struct Placement {
    pub side: Side,
    pub time_in_force: TimeInForce,
    pub base: String,
    pub quote: String,
    /// The price that backs what is set aside for a buy.
    pub backing: AmountAtoms,
    /// What is set aside: an asset and an amount.
    pub reserve: Option<(String, AmountAtoms)>,
}

pub struct PlacementView {
    pub side: Side,
    pub time_in_force: TimeInForce,
    pub base: Seq<char>,
    pub quote: Seq<char>,
    pub backing: AmountAtoms,
    pub reserve: Option<(Seq<char>, AmountAtoms)>,
}

impl Placement {
    pub open spec fn view(self) -> PlacementView {
        PlacementView {
            side: self.side,
            time_in_force: self.time_in_force,
            base: self.base@,
            quote: self.quote@,
            backing: self.backing,
            reserve: order_entry::named_option(self.reserve),
        }
    }
}

pub open spec fn placement_result(r: Result<Placement, String>) -> Result<
    PlacementView,
    Seq<char>,
> {
    match r {
        Ok(p) => Ok(p.view()),
        Err(reason) => Err(reason@),
    }
}

/// How an order is entered, or why it is refused, apart from its shape.
pub open spec fn entry_of(
    order: PricedOrder,
    venue: Venue,
    best: Option<AmountAtoms>,
) -> Result<PlacementView, Seq<char>> {
    let symbol = order.symbol@;
    let tif = order_entry::combined_tif(order.order_type@, text::opt_string(order.time_in_force));
    match order_entry::side_of(order.side@) {
        None => Err("Invalid side"@),
        Some(side) => if tif is None {
            Err("Unknown order type"@)
        } else if venue.engines && !venue.engine {
            Err("Unknown symbol: "@ + symbol)
        } else if venue.queue && !venue.listed {
            Err("No engine for symbol: "@ + symbol)
        } else if !venue.queue && !venue.engine {
            Err("No matching engine configured"@)
        } else {
            let (base, quote) = order_entry::assets_or_default(symbol);
            let backing = order_entry::backing_price(side, order.price, best);
            let placed = |reserve: Option<(Seq<char>, AmountAtoms)>|
                PlacementView { side, time_in_force: tif->0, base, quote, backing, reserve };
            match order_entry::reservation(side, backing, order.qty, base, quote) {
                Ok(r) => Ok(placed(Some(r))),
                Err(ReserveError::TooLarge) => Err("Insufficient balance"@),
                Err(ReserveError::NoPrice) => if venue.queue {
                    Err("Unable to determine buy reservation price"@)
                } else {
                    Ok(placed(None))
                },
            }
        },
    }
}

/// How a single order is entered, or why it is refused.
pub open spec fn admission_of(
    order: PricedOrder,
    venue: Venue,
    best: Option<AmountAtoms>,
) -> Result<PlacementView, Seq<char>> {
    match symbol_rules::shape_of(order.symbol@, order.order_type@, order.price, order.qty) {
        Err(reason) => Err(reason),
        Ok(_) => entry_of(order, venue, best),
    }
}

fn with_symbol(start: &str, symbol: &str) -> (r: String)
    ensures
        r@ == start@ + symbol@,
{
    let mut out = text::owned(start);
    out.append(symbol);
    out
}

/// Decides how an order of a batch is entered. `best` is the best price on
/// offer, which backs a buy without a limit.
pub fn enter_order(order: &PricedOrder, venue: Venue, best: Option<AmountAtoms>) -> (r: Result<
    Placement,
    String,
>)
    ensures
        placement_result(r) == entry_of(*order, venue, best),
{
    let symbol = order.symbol.as_str();
    let side = match order_entry::parse_side(order.side.as_str()) {
        Some(side) => side,
        None => return Err(text::owned("Invalid side")),
    };
    let tif = match &order.time_in_force {
        Some(t) => order_entry::parse_combined_tif(order.order_type.as_str(), Some(t.as_str())),
        None => order_entry::parse_combined_tif(order.order_type.as_str(), None),
    };
    let time_in_force = match tif {
        Some(t) => t,
        None => return Err(text::owned("Unknown order type")),
    };
    if venue.engines && !venue.engine {
        return Err(with_symbol("Unknown symbol: ", symbol));
    }
    if venue.queue && !venue.listed {
        return Err(with_symbol("No engine for symbol: ", symbol));
    }
    if !venue.queue && !venue.engine {
        return Err(text::owned("No matching engine configured"));
    }
    let (base, quote) = order_entry::split_assets_or_default(symbol);
    let backing = order_entry::compute_backing_price(side, order.price, best);
    let reserve = match order_entry::reserve(
        side,
        backing,
        order.qty,
        base.as_str(),
        quote.as_str(),
    ) {
        Ok(r) => Some(r),
        Err(ReserveError::TooLarge) => return Err(text::owned("Insufficient balance")),
        Err(ReserveError::NoPrice) => {
            if venue.queue {
                return Err(text::owned("Unable to determine buy reservation price"));
            }
            None
        },
    };
    Ok(Placement { side, time_in_force, base, quote, backing, reserve })
}

/// Decides how a single order is entered.
pub fn admit_order(order: &PricedOrder, venue: Venue, best: Option<AmountAtoms>) -> (r: Result<
    Placement,
    String,
>)
    ensures
        placement_result(r) == admission_of(*order, venue, best),
{
    match symbol_rules::normalize_order_shape(
        order.symbol.as_str(),
        order.order_type.as_str(),
        order.price,
        order.qty,
    ) {
        Ok(_) => enter_order(order, venue, best),
        Err(reason) => Err(text::owned(reason)),
    }
}

/// The asset and amount of a placement; nothing of no asset where nothing is
/// set aside.
pub open spec fn held(p: PlacementView) -> (Seq<char>, int) {
    match p.reserve {
        Some((asset, amount)) => (asset, amount.0 as int),
        None => (""@, 0),
    }
}

/// Sets aside what a placement needs; `false` where the balance does not cover
/// it.
pub fn hold_funds(cache: &mut AccountCache, user_id: i64, placement: &Placement) -> (r: bool)
    requires
        old(cache).wf(),
    ensures
        final(cache).wf(),
        ({
            let (asset, amount) = held(placement.view());
            &&& r == order_entry::grants(old(cache).view(), user_id, asset, amount)
            &&& final(cache).view() == order_entry::after_freeze(
                old(cache).view(),
                user_id,
                asset,
                amount,
            )
        }),
{
    match &placement.reserve {
        Some((asset, amount)) => cache.try_freeze_cache(user_id, asset.as_str(), *amount),
        None => true,
    }
}

/// Gives back what a placement has set aside.
pub fn free_funds(cache: &mut AccountCache, user_id: i64, placement: &Placement)
    requires
        old(cache).wf(),
    ensures
        final(cache).wf(),
        final(cache).view() == order_entry::after_release(
            old(cache).view(),
            user_id,
            held(placement.view()).0,
            held(placement.view()).1,
        ),
{
    match &placement.reserve {
        Some((asset, amount)) => cache.release_cache_frozen(user_id, asset.as_str(), *amount),
        None => {
            proof {
                assert(order_entry::after_release(cache.view(), user_id, ""@, 0) == cache.view());
            }
        },
    }
}

/// Takes a single order in for the engine elsewhere: it is checked, and what
/// it needs is set aside.
pub fn take_order(
    cache: &mut AccountCache,
    user_id: i64,
    order: &PricedOrder,
    listed: bool,
    best: Option<AmountAtoms>,
) -> (r: Result<Placement, String>)
    requires
        old(cache).wf(),
    ensures
        final(cache).wf(),
        ({
            let venue = Venue { engines: false, engine: false, queue: true, listed };
            match admission_of(*order, venue, best) {
                Err(reason) => placement_result(r) == Err::<PlacementView, Seq<char>>(reason)
                    && final(cache).view() == old(cache).view(),
                Ok(p) => {
                    let (asset, amount) = held(p);
                    &&& final(cache).view() == order_entry::after_freeze(
                        old(cache).view(),
                        user_id,
                        asset,
                        amount,
                    )
                    &&& placement_result(r) == (if order_entry::grants(
                        old(cache).view(),
                        user_id,
                        asset,
                        amount,
                    ) {
                        Ok::<PlacementView, Seq<char>>(p)
                    } else {
                        Err("Insufficient balance"@)
                    })
                },
            }
        }),
{
    let venue = Venue { engines: false, engine: false, queue: true, listed };
    let placement = match admit_order(order, venue, best) {
        Ok(p) => p,
        Err(reason) => return Err(reason),
    };
    if hold_funds(cache, user_id, &placement) {
        Ok(placement)
    } else {
        Err(text::owned("Insufficient balance"))
    }
}

/// Whether the command queue is too deep to take another order in.
pub fn queue_too_deep(depth: usize, cap: Option<usize>) -> (r: bool)
    ensures
        r == (match cap {
            Some(c) => depth >= c,
            None => false,
        }),
{
    match cap {
        Some(c) => depth >= c,
        None => false,
    }
}

/// What is left to do once an order was offered to the command queue.
#[derive(Debug)]
pub struct AfterPush {
    /// The order whose details are to be forgotten.
    pub forget: Option<u64>,
    pub reply: Option<Reply>,
}

pub struct AfterPushView {
    pub balances: Map<i64, Map<Seq<char>, AccountBalance>>,
    pub forget: Option<u64>,
    pub reply: Option<ReplyView>,
}

pub open spec fn reply_option(r: Option<Reply>) -> Option<ReplyView> {
    match r {
        Some(x) => Some(x.view()),
        None => None,
    }
}

/// How an order fares at the command queue. One that the queue took is answered
/// where answers are asked for; one that found the queue full is turned away:
/// what it had set aside is given back, and it is forgotten.
pub open spec fn offered(
    m: Map<i64, Map<Seq<char>, AccountBalance>>,
    user_id: i64,
    p: PlacementView,
    id: u64,
    pushed: bool,
    answer: bool,
) -> AfterPushView {
    if pushed {
        AfterPushView {
            balances: m,
            forget: None,
            reply: if answer {
                Some(ReplyView::OrderSubmitted(id))
            } else {
                None
            },
        }
    } else {
        AfterPushView {
            balances: order_entry::after_release(m, user_id, held(p).0, held(p).1),
            forget: Some(id),
            reply: Some(ReplyView::OrderRejected("system busy"@)),
        }
    }
}

/// Follows up on a single order that was offered to the command queue: `pushed`
/// tells whether the queue took it, `answer` whether the client is told so.
pub fn after_push(
    cache: &mut AccountCache,
    user_id: i64,
    placement: &Placement,
    id: u64,
    pushed: bool,
    answer: bool,
) -> (r: AfterPush)
    requires
        old(cache).wf(),
    ensures
        final(cache).wf(),
        (AfterPushView {
            balances: final(cache).view(),
            forget: r.forget,
            reply: reply_option(r.reply),
        }) == offered(old(cache).view(), user_id, placement.view(), id, pushed, answer),
{
    if pushed {
        let reply = if answer {
            Some(Reply::OrderSubmitted(id))
        } else {
            None
        };
        AfterPush { forget: None, reply }
    } else {
        free_funds(cache, user_id, placement);
        AfterPush { forget: Some(id), reply: Some(Reply::OrderRejected(text::owned("system busy"))) }
    }
}

/// The answer to a batch that was offered to the command queue; `None` stands
/// for a batch of which nothing was to be sent. A batch that found the queue
/// full is refused as a whole.
pub open spec fn batch_answer(
    batch_id: Seq<char>,
    results: Seq<(u64, u64, u8)>,
    pushed: Option<bool>,
) -> ReplyView {
    if pushed == Some(false) {
        ReplyView::Error("system busy — aeron command queue full"@)
    } else {
        ReplyView::OrdersPlaced { batch_id, results }
    }
}

/// Answers a batch once it was offered to the command queue. What was set aside
/// for it stays so either way.
pub fn after_batch_push(
    batch_id: String,
    results: Vec<(u64, u64, u8)>,
    pushed: Option<bool>,
) -> (r: Reply)
    ensures
        r.view() == batch_answer(batch_id@, results@, pushed),
{
    match pushed {
        Some(false) => Reply::Error(text::owned("system busy — aeron command queue full")),
        _ => Reply::OrdersPlaced { batch_id, results },
    }
}

/// The answer to a cancellation that was offered to the command queue.
pub open spec fn cancel_answer(order_id: i64, pushed: bool) -> ReplyView {
    if pushed {
        ReplyView::CancelSubmitted(order_id as u64)
    } else {
        ReplyView::Error("system busy"@)
    }
}

/// Answers a cancellation once it was offered to the command queue.
pub fn after_cancel_push(order_id: i64, pushed: bool) -> (r: Reply)
    ensures
        r.view() == cancel_answer(order_id, pushed),
{
    if pushed {
        Reply::CancelSubmitted(order_id as u64)
    } else {
        Reply::Error(text::owned("system busy"))
    }
}

/// A client who places an order that is taken in, but finds the command queue
/// full, is told that the system is busy; the session and all balances are as
/// they were, and the order is forgotten.
pub proof fn law_full_queue_is_answered_busy(
    session: SessionView,
    request: ws_message::RequestView,
    m: Map<i64, Map<Seq<char>, AccountBalance>>,
    user_id: i64,
    p: PlacementView,
    id: u64,
    answer: bool,
)
    requires
        session.user_id == Some(user_id),
        order_entry::grants(m, user_id, held(p).0, held(p).1),
        order_entry::balance_of(m, user_id, held(p).0) matches Some(b) ==> b.frozen_atoms >= 0
            && money::fits_i64(b.spendable()),
    ensures
        ({
            let msg = Some(ws_message::MsgView::PlaceOrder(request));
            let taken = order_entry::after_freeze(m, user_id, held(p).0, held(p).1);
            &&& session.step(msg) == (StepView::Place { user_id, order: request })
            &&& session.after(msg) == session
            &&& offered(taken, user_id, p, id, false, answer) == (AfterPushView {
                balances: m,
                forget: Some(id),
                reply: Some(ReplyView::OrderRejected("system busy"@)),
            })
        }),
{
    law_turned_away_order_leaves_no_trace(m, user_id, p);
}

/// An order that is taken in and then turned away, because the command queue
/// is full, leaves all balances as they were.
pub proof fn law_turned_away_order_leaves_no_trace(
    m: Map<i64, Map<Seq<char>, AccountBalance>>,
    user_id: i64,
    p: PlacementView,
)
    requires
        order_entry::grants(m, user_id, held(p).0, held(p).1),
        order_entry::balance_of(m, user_id, held(p).0) matches Some(b) ==> b.frozen_atoms >= 0
            && money::fits_i64(b.spendable()),
    ensures
        order_entry::after_release(
            order_entry::after_freeze(m, user_id, held(p).0, held(p).1),
            user_id,
            held(p).0,
            held(p).1,
        ) == m,
{
    match p.reserve {
        Some((asset, amount)) => {
            order_entry::law_cache_freeze_is_undone(m, user_id, asset, amount);
        },
        None => {},
    }
}

/// How far a batch has come.
pub struct BatchView {
    pub balances: Map<i64, Map<Seq<char>, AccountBalance>>,
    /// How many orders were refused before anything was set aside.
    pub refused: nat,
    /// What became of the others, in their order.
    pub results: Seq<(u64, u64, u8)>,
    /// The positions and ids of the orders that go to the engine.
    pub placed: Seq<(int, u64)>,
    /// How many ids were given out.
    pub ids: nat,
}

/// What becomes of a batch. Every order that could be entered gets the next id,
/// and is open where its funds could be set aside.
pub open spec fn batch_after(
    m: Map<i64, Map<Seq<char>, AccountBalance>>,
    user_id: i64,
    orders: Seq<Option<PlacementView>>,
    first_id: u64,
) -> BatchView
    decreases orders.len(),
{
    if orders.len() == 0 {
        BatchView { balances: m, refused: 0, results: seq![], placed: seq![], ids: 0 }
    } else {
        let before = batch_after(m, user_id, orders.drop_last(), first_id);
        match orders.last() {
            None => BatchView { refused: before.refused + 1, ..before },
            Some(p) => {
                let (asset, amount) = held(p);
                let id = (first_id + before.ids) as u64;
                if order_entry::grants(before.balances, user_id, asset, amount) {
                    BatchView {
                        balances: order_entry::after_freeze(
                            before.balances,
                            user_id,
                            asset,
                            amount,
                        ),
                        refused: before.refused,
                        results: before.results.push((id, id, WS_STATUS_OPEN)),
                        placed: before.placed.push((orders.len() - 1, id)),
                        ids: before.ids + 1,
                    }
                } else {
                    BatchView {
                        results: before.results.push((0, 0, WS_STATUS_REJECTED)),
                        ids: before.ids + 1,
                        ..before
                    }
                }
            },
        }
    }
}

/// The lines of an answer to a batch: the refused orders first.
pub open spec fn batch_results(b: BatchView) -> Seq<(u64, u64, u8)> {
    Seq::new(b.refused, |i: int| (0u64, 0u64, WS_STATUS_REJECTED)) + b.results
}

pub open spec fn placement_options(s: Seq<Option<Placement>>) -> Seq<Option<PlacementView>> {
    s.map_values(
        |p: Option<Placement>|
            match p {
                Some(x) => Some(x.view()),
                None => None,
            },
    )
}

/// Every order of a batch is answered with one line, and only orders that got
/// an id can be open.
pub proof fn law_batch_answers_every_order(
    m: Map<i64, Map<Seq<char>, AccountBalance>>,
    user_id: i64,
    orders: Seq<Option<PlacementView>>,
    first_id: u64,
)
    ensures
        ({
            let b = batch_after(m, user_id, orders, first_id);
            &&& batch_results(b).len() == orders.len()
            &&& b.refused + b.ids == orders.len()
            &&& b.results.len() == b.ids
            &&& b.placed.len() <= b.ids
        }),
    decreases orders.len(),
{
    if orders.len() > 0 {
        law_batch_answers_every_order(m, user_id, orders.drop_last(), first_id);
    }
}

/// What becomes of a batch.
#[derive(Debug)]
pub struct BatchOutcome {
    /// A line for each order, the refused ones first.
    pub results: Vec<(u64, u64, u8)>,
    /// The positions and ids of the orders that go to the engine.
    pub placed: Vec<(usize, u64)>,
}

pub open spec fn placed_views(s: Seq<(usize, u64)>) -> Seq<(int, u64)> {
    s.map_values(|p: (usize, u64)| (p.0 as int, p.1))
}

/// Sets aside what the orders of a batch need, one after the other. `None`
/// stands for an order that was refused; ids are given out from `first_id` on.
pub fn take_batch(
    cache: &mut AccountCache,
    user_id: i64,
    orders: &Vec<Option<Placement>>,
    first_id: u64,
) -> (r: BatchOutcome)
    requires
        old(cache).wf(),
        first_id + orders@.len() <= u64::MAX,
    ensures
        final(cache).wf(),
        ({
            let b = batch_after(
                old(cache).view(),
                user_id,
                placement_options(orders@),
                first_id,
            );
            &&& final(cache).view() == b.balances
            &&& r.results@ == batch_results(b)
            &&& placed_views(r.placed@) == b.placed
        }),
{
    let ghost all = placement_options(orders@);
    let ghost start = cache.view();
    let mut refused: Vec<(u64, u64, u8)> = Vec::new();
    let mut results: Vec<(u64, u64, u8)> = Vec::new();
    let mut placed: Vec<(usize, u64)> = Vec::new();
    let mut id: u64 = first_id;
    let mut i: usize = 0;
    proof {
        assert(all.take(0) =~= seq![]);
        assert(placed_views(placed@) =~= seq![]);
    }
    while i < orders.len()
        invariant
            i <= orders@.len(),
            all == placement_options(orders@),
            cache.wf(),
            first_id + orders@.len() <= u64::MAX,
            ({
                let b = batch_after(start, user_id, all.take(i as int), first_id);
                &&& cache.view() == b.balances
                &&& refused@ =~= Seq::new(b.refused, |j: int| (0u64, 0u64, WS_STATUS_REJECTED))
                &&& results@ == b.results
                &&& placed_views(placed@) == b.placed
                &&& id == first_id + b.ids
                &&& b.ids <= i
            }),
        decreases orders@.len() - i,
    {
        let ghost here = all.take(i + 1);
        proof {
            assert(here.drop_last() =~= all.take(i as int));
            assert(here.last() == all[i as int]);
        }
        match &orders[i] {
            None => {
                refused.push((0, 0, WS_STATUS_REJECTED));
            },
            Some(placement) => {
                if hold_funds(cache, user_id, placement) {
                    results.push((id, id, WS_STATUS_OPEN));
                    let ghost before = placed@;
                    placed.push((i, id));
                    proof {
                        assert(placed_views(placed@) =~= placed_views(before).push(
                            (i as int, id),
                        ));
                    }
                } else {
                    results.push((0, 0, WS_STATUS_REJECTED));
                }
                id = id + 1;
            },
        }
        i = i + 1;
    }
    proof {
        assert(all.take(i as int) =~= all);
    }
    let mut lines = refused;
    lines.append(&mut results);
    BatchOutcome { results: lines, placed }
}

/// What is set aside of an asset.
pub open spec fn frozen_of(
    m: Map<i64, Map<Seq<char>, AccountBalance>>,
    user_id: i64,
    asset: Seq<char>,
) -> int {
    match order_entry::balance_of(m, user_id, asset) {
        Some(b) => b.frozen_atoms as int,
        None => 0,
    }
}

/// What the open orders of a batch need of an asset.
pub open spec fn needed(
    orders: Seq<Option<PlacementView>>,
    placed: Seq<(int, u64)>,
    asset: Seq<char>,
) -> int
    decreases placed.len(),
{
    if placed.len() == 0 {
        0
    } else {
        let (at, amount) = held(orders[placed.last().0]->0);
        needed(orders, placed.drop_last(), asset) + (if at == asset && amount > 0 {
            amount
        } else {
            0
        })
    }
}

proof fn lemma_needed_prefix(
    orders: Seq<Option<PlacementView>>,
    n: int,
    placed: Seq<(int, u64)>,
    asset: Seq<char>,
)
    requires
        0 <= n <= orders.len(),
        forall|k: int| 0 <= k < placed.len() ==> 0 <= (#[trigger] placed[k]).0 < n,
    ensures
        needed(orders.take(n), placed, asset) == needed(orders, placed, asset),
    decreases placed.len(),
{
    if placed.len() > 0 {
        let rest = placed.drop_last();
        assert forall|k: int| 0 <= k < rest.len() implies 0 <= (#[trigger] rest[k]).0 < n by {
            assert(rest[k] == placed[k]);
        }
        lemma_needed_prefix(orders, n, rest, asset);
        assert(0 <= placed[placed.len() - 1].0 < n);
        assert(orders.take(n)[placed.last().0] == orders[placed.last().0]);
    }
}

proof fn lemma_placed_in_range(
    m: Map<i64, Map<Seq<char>, AccountBalance>>,
    user_id: i64,
    orders: Seq<Option<PlacementView>>,
    first_id: u64,
    k: int,
)
    requires
        0 <= k < batch_after(m, user_id, orders, first_id).placed.len(),
    ensures
        0 <= batch_after(m, user_id, orders, first_id).placed[k].0 < orders.len(),
    decreases orders.len(),
{
    let rest = orders.drop_last();
    let before = batch_after(m, user_id, rest, first_id);
    if k < before.placed.len() {
        lemma_placed_in_range(m, user_id, rest, first_id, k);
    }
}

/// A batch sets aside exactly what its open orders need, and touches no other
/// balance: neither another user's nor what the user owns.
pub proof fn law_batch_holds_what_it_opens(
    m: Map<i64, Map<Seq<char>, AccountBalance>>,
    user_id: i64,
    orders: Seq<Option<PlacementView>>,
    first_id: u64,
    other: i64,
    asset: Seq<char>,
)
    ensures
        ({
            let b = batch_after(m, user_id, orders, first_id);
            let was = order_entry::balance_of(m, other, asset);
            let now = order_entry::balance_of(b.balances, other, asset);
            &&& frozen_of(b.balances, user_id, asset) == frozen_of(m, user_id, asset) + needed(
                orders,
                b.placed,
                asset,
            )
            &&& other != user_id ==> now == was
            &&& was is Some <==> now is Some
            &&& was is Some ==> now->0.balance_atoms == was->0.balance_atoms
        }),
    decreases orders.len(),
{
    if orders.len() > 0 {
        let rest = orders.drop_last();
        law_batch_holds_what_it_opens(m, user_id, rest, first_id, other, asset);
        let before = batch_after(m, user_id, rest, first_id);
        let b = batch_after(m, user_id, orders, first_id);
        let n = rest.len() as int;
        assert(orders.take(n) =~= rest);
        assert forall|k: int| 0 <= k < before.placed.len() implies 0 <= (
        #[trigger] before.placed[k]).0 < n by {
            lemma_placed_in_range(m, user_id, rest, first_id, k);
        }
        lemma_needed_prefix(orders, n, before.placed, asset);
        match orders.last() {
            None => {},
            Some(p) => {
                let (at, amount) = held(p);
                if order_entry::grants(before.balances, user_id, at, amount) {
                    assert(b.placed.drop_last() =~= before.placed);
                    if amount > 0 {
                        law_batch_holds_what_it_opens(m, user_id, rest, first_id, user_id, at);
                        let own = order_entry::balance_of(before.balances, user_id, at)->0;
                        assert(own.frozen_atoms + amount <= own.balance_atoms);
                    }
                }
            },
        }
    }
}

/// An order that is to be cancelled.
#[derive(Debug)]
pub struct OpenOrderRow {
    pub id: i64,
    pub symbol: String,
    pub side: String,
    /// The price that backs what is set aside; zero where there is none.
    pub freeze_price: AmountAtoms,
    pub quantity: AmountAtoms,
    pub filled: AmountAtoms,
}

/// What a cancelled order gives back for its unfilled part.
pub open spec fn cancel_release(row: OpenOrderRow) -> Option<(Seq<char>, AmountAtoms)> {
    let (base, quote) = order_entry::assets_or_default(row.symbol@);
    order_entry::release(
        if row.side@ == "buy"@ {
            Side::Buy
        } else {
            Side::Sell
        },
        row.freeze_price,
        order_entry::remaining(row.quantity, row.filled),
        base,
        quote,
    )
}

/// What a cancelled order gives back.
pub fn release_for_cancel(row: &OpenOrderRow) -> (r: Option<(String, AmountAtoms)>)
    ensures
        order_entry::named_option(r) == cancel_release(*row),
{
    let (base, quote) = order_entry::split_assets_or_default(row.symbol.as_str());
    let side = if text::str_eq(row.side.as_str(), "buy") {
        Side::Buy
    } else {
        Side::Sell
    };
    order_entry::compute_release(
        side,
        row.freeze_price,
        order_entry::compute_remaining(row.quantity, row.filled),
        base.as_str(),
        quote.as_str(),
    )
}

pub open spec fn release_views(s: Seq<Option<(String, AmountAtoms)>>) -> Seq<
    Option<(Seq<char>, AmountAtoms)>,
> {
    s.map_values(|r: Option<(String, AmountAtoms)>| order_entry::named_option(r))
}

/// What each of several cancelled orders gives back.
pub fn release_for_cancels(rows: &Vec<OpenOrderRow>) -> (r: Vec<Option<(String, AmountAtoms)>>)
    ensures
        release_views(r@) == rows@.map_values(|row: OpenOrderRow| cancel_release(row)),
{
    let ghost all = rows@.map_values(|row: OpenOrderRow| cancel_release(row));
    let mut out: Vec<Option<(String, AmountAtoms)>> = Vec::new();
    let mut i: usize = 0;
    while i < rows.len()
        invariant
            i <= rows@.len(),
            all == rows@.map_values(|row: OpenOrderRow| cancel_release(row)),
            release_views(out@) == all.take(i as int),
        decreases rows@.len() - i,
    {
        let back = release_for_cancel(&rows[i]);
        let ghost before = out@;
        out.push(back);
        proof {
            assert(release_views(out@) =~= release_views(before).push(
                order_entry::named_option(back),
            ));
            assert(all.take(i + 1) =~= all.take(i as int).push(all[i as int]));
        }
        i = i + 1;
    }
    proof {
        assert(all.take(i as int) =~= all);
    }
    out
}

/// How many orders a bulk cancellation reports: all of them where they were
/// cancelled here or handed to the queue, none where the queue was full.
pub fn count_cancelled(orders: usize, queued: Option<bool>) -> (r: usize)
    ensures
        r == (if queued == Some(false) {
            0
        } else {
            orders
        }),
{
    match queued {
        Some(false) => 0,
        _ => orders,
    }
}

/// Cancelling an untouched order gives back exactly what was set aside when it
/// was entered.
pub proof fn law_cancel_returns_the_reservation(
    order: PricedOrder,
    venue: Venue,
    best: Option<AmountAtoms>,
    row: OpenOrderRow,
)
    requires
        order.qty.0 > 0,
        entry_of(order, venue, best) is Ok,
        row.freeze_price == entry_of(order, venue, best)->Ok_0.backing,
        row.symbol@ == order.symbol@,
        row.side@ == order.side@,
        row.quantity == order.qty,
        row.filled.0 == 0,
    ensures
        cancel_release(row) == entry_of(order, venue, best)->Ok_0.reserve,
{
    reveal_strlit("buy");
    reveal_strlit("sell");
    assert("buy"@ != "sell"@) by {
        assert("buy"@.len() == 3);
        assert("sell"@.len() == 4);
    }
    order_entry::lemma_product_sign(row.freeze_price.0 as int, order.qty.0 as int);
}

/// What a heartbeat does.
#[derive(Debug, Clone, Copy, PartialEq, Eq, Structural)]
pub enum Beat {
    Ping,
    Close,
}

/// Whether a connection owes a sign of life.
#[derive(Debug)]
pub struct Heartbeat {
    waiting: bool,
}

impl Heartbeat {
    pub closed spec fn waits(self) -> bool {
        self.waiting
    }

    pub fn new() -> (r: Heartbeat)
        ensures
            !r.waits(),
    {
        Heartbeat { waiting: false }
    }

    /// The interval is over: a connection that has not answered the last ping
    /// is closed, any other is pinged.
    pub fn tick(&mut self) -> (r: Beat)
        ensures
            r == (if old(self).waits() {
                Beat::Close
            } else {
                Beat::Ping
            }),
            final(self).waits(),
    {
        if self.waiting {
            Beat::Close
        } else {
            self.waiting = true;
            Beat::Ping
        }
    }

    /// The connection has answered.
    pub fn pong(&mut self)
        ensures
            !final(self).waits(),
    {
        self.waiting = false;
    }
}

/// How long a connection waits before its first ping, in milliseconds; the
/// waits of many connections spread over the interval.
pub fn ping_delay_ms(conn_id: u64) -> (r: u64)
    ensures
        r == conn_id % PING_INTERVAL_MS,
        r < PING_INTERVAL_MS,
{
    conn_id % PING_INTERVAL_MS
}

/// How the number of subscribers changes when a session had subscriptions
/// before a message or not, and has some after it or not.
pub fn subscriber_change(was: bool, now: bool) -> (r: i8)
    ensures
        r == (if now {
            1int
        } else {
            0
        }) - (if was {
            1int
        } else {
            0
        }),
{
    if now && !was {
        1
    } else if was && !now {
        -1
    } else {
        0
    }
}

/// The levels of a side that hold anything, in atoms.
pub open spec fn level_amounts(levels: Seq<(i64, i64)>, rules: SymbolRules) -> Seq<
    (AmountAtoms, AmountAtoms),
>
    decreases levels.len(),
{
    if levels.len() == 0 {
        seq![]
    } else {
        let before = level_amounts(levels.drop_last(), rules);
        let (ticks, lots) = levels.last();
        if lots > 0 {
            before.push(
                (
                    order_entry::units_amount(ticks as int, rules.price_tick_atoms as int),
                    order_entry::units_amount(lots as int, rules.quantity_step_atoms as int),
                ),
            )
        } else {
            before
        }
    }
}

/// The levels of a side of the book, without the empty ones. Ticks and lots
/// become amounts by the rules of the symbol.
pub fn depth_levels(levels: &Vec<(i64, i64)>, symbol: &str) -> (r: Vec<(AmountAtoms, AmountAtoms)>)
    ensures
        r@ == level_amounts(levels@, symbol_rules::rules_of(symbol@)),
{
    let rules = SymbolRules::for_symbol(symbol);
    let mut out: Vec<(AmountAtoms, AmountAtoms)> = Vec::new();
    let mut i: usize = 0;
    while i < levels.len()
        invariant
            i <= levels@.len(),
            rules == symbol_rules::rules_of(symbol@),
            out@ == level_amounts(levels@.take(i as int), rules),
        decreases levels@.len() - i,
    {
        let (ticks, lots) = levels[i];
        proof {
            assert(levels@.take(i + 1).drop_last() =~= levels@.take(i as int));
        }
        if lots > 0 {
            out.push(
                (
                    order_entry::compute_units(ticks, rules.price_tick_atoms),
                    order_entry::compute_units(lots, rules.quantity_step_atoms),
                ),
            );
        }
        i = i + 1;
    }
    proof {
        assert(levels@.take(i as int) =~= levels@);
    }
    out
}

/// The statuses of a frame have codes of their own; both names of a partial fill
/// share one.
pub proof fn law_status_bytes_are_distinct(a: WsOrderStatus, b: WsOrderStatus)
    ensures
        status_byte(a) == status_byte(b) <==> a == b || ((a is Partial || a is PartialFill) && (
        b is Partial || b is PartialFill)),
{
}

/// A session that has signed in is served under its user: every request is
/// passed on as it came, a batch up to its limit of forty. One that has not
/// signed in is refused.
pub proof fn law_requests_are_passed_on(
    session: SessionView,
    order: ws_message::RequestView,
    batch_id: Seq<char>,
    orders: Seq<Option<ws_message::RequestView>>,
    order_id: i64,
    order_ids: Seq<i64>,
    symbol: Seq<char>,
)
    ensures
        ({
            let place = session.step(Some(ws_message::MsgView::PlaceOrder(order)));
            let batch = session.step(Some(ws_message::MsgView::PlaceOrders { batch_id, orders }));
            let cancel = session.step(Some(ws_message::MsgView::CancelOrder { order_id }));
            let cancels = session.step(Some(ws_message::MsgView::BatchCancel { order_ids }));
            let sweep = session.step(Some(ws_message::MsgView::CancelSymbol { symbol }));
            let all = session.step(Some(ws_message::MsgView::CancelAll));
            match session.user_id {
                Some(user_id) => {
                    &&& place == (StepView::Place { user_id, order })
                    &&& (batch matches StepView::PlaceBatch { user_id: u, batch_id: b, orders: o }
                        && u == user_id && b == batch_id && o.len() <= 40 && o.is_prefix_of(orders)
                        && (orders.len() <= 40 ==> o == orders) && (orders.len() > 40 ==> o.len()
                        == 40))
                    &&& cancel == (StepView::Cancel { user_id, order_id })
                    &&& order_ids.len() > 0 ==> cancels == (StepView::CancelMany {
                        user_id,
                        order_ids,
                    })
                    &&& order_ids.len() == 0 ==> cancels == StepView::Answer(
                        ReplyView::BatchCancelOk(0),
                    )
                    &&& sweep == (StepView::CancelSymbol { user_id, symbol })
                    &&& all == (StepView::CancelAll { user_id })
                },
                None => {
                    &&& place == StepView::Answer(ReplyView::OrderRejected("Not authenticated"@))
                    &&& batch == StepView::Answer(ReplyView::Error("Not authenticated"@))
                    &&& cancel == StepView::Answer(ReplyView::Error("Not authenticated"@))
                    &&& cancels == StepView::Answer(ReplyView::Error("Not authenticated"@))
                    &&& sweep == StepView::Answer(ReplyView::Error("Not authenticated"@))
                    &&& all == StepView::Answer(ReplyView::Error("Not authenticated"@))
                },
            }
        }),
{
    assert(orders.len() > 40 ==> orders.take(40).is_prefix_of(orders));
}

/// A subscription is answered with what is known of its symbols: a channel of a
/// family names a symbol behind the family's prefix, and no other channel does.
pub proof fn law_snapshots_follow_the_channels(
    channels: Seq<Seq<char>>,
    prefix: Seq<char>,
    symbol: Seq<char>,
)
    ensures
        all_behind(channels, prefix).contains(symbol) <==> channels.contains(prefix + symbol),
    decreases channels.len(),
{
    if channels.len() > 0 {
        let d = channels.drop_last();
        let c = channels.last();
        let rest = all_behind(d, prefix);
        let all = all_behind(channels, prefix);
        let wanted = prefix + symbol;
        law_snapshots_follow_the_channels(d, prefix, symbol);
        assert(wanted.take(prefix.len() as int) =~= prefix);
        assert(wanted.skip(prefix.len() as int) =~= symbol);
        if let Some(t) = text::behind(c, prefix) {
            assert(c =~= prefix + t);
        }
        assert(channels.contains(wanted) <==> d.contains(wanted) || c == wanted) by {
            if d.contains(wanted) {
                let i = choose|i: int| 0 <= i < d.len() && d[i] == wanted;
                assert(channels[i] == wanted);
            }
            if c == wanted {
                assert(channels[channels.len() - 1] == wanted);
            }
            if channels.contains(wanted) && c != wanted {
                let i = choose|i: int| 0 <= i < channels.len() && channels[i] == wanted;
                assert(d[i] == wanted);
            }
        }
        assert(all.contains(symbol) <==> rest.contains(symbol) || text::behind(c, prefix) == Some(
            symbol,
        )) by {
            if rest.contains(symbol) {
                let i = choose|i: int| 0 <= i < rest.len() && rest[i] == symbol;
                assert(all[i] == symbol);
            }
            if text::behind(c, prefix) == Some(symbol) {
                assert(all[all.len() - 1] == symbol);
            }
            if all.contains(symbol) && !rest.contains(symbol) {
                let i = choose|i: int| 0 <= i < all.len() && all[i] == symbol;
                assert(i < rest.len() ==> rest[i] == symbol);
            }
        }
    }
}

/// An order is entered only where something can match it, on the side that it
/// names. Where orders go through a queue, an entered order always has something
/// set aside.
pub proof fn law_entry_needs_an_engine(
    order: PricedOrder,
    venue: Venue,
    best: Option<AmountAtoms>,
)
    ensures
        ({
            let r = entry_of(order, venue, best);
            &&& venue.engines && !venue.engine ==> r is Err
            &&& venue.queue && !venue.listed ==> r is Err
            &&& !venue.queue && !venue.engine ==> r is Err
            &&& order.side@ != "buy"@ && order.side@ != "sell"@ ==> r is Err
            &&& (r matches Ok(p) ==> {
                &&& p.side == Side::Buy ==> order.side@ == "buy"@
                &&& p.side == Side::Sell ==> order.side@ == "sell"@
                &&& venue.queue ==> p.reserve is Some
                &&& p.side == Side::Sell ==> p.reserve == Some((p.base, order.qty))
                &&& p.reserve is Some && p.side == Side::Buy ==> ((p.reserve->0).0 == p.quote)
                &&& p.side == Side::Buy && order.price is Some && (order.price->0).0 > 0
                    ==> p.backing == order.price->0
                &&& p.side == Side::Buy && order.price is None && best is Some ==> p.backing == best->0
            })
        }),
{
}

/// An order that is refused by itself, or by its shape, is never set aside for.
pub proof fn law_admission_is_entry_of_a_sound_shape(
    order: PricedOrder,
    venue: Venue,
    best: Option<AmountAtoms>,
)
    ensures
        symbol_rules::shape_of(order.symbol@, order.order_type@, order.price, order.qty) is Err
            ==> admission_of(order, venue, best) is Err,
        symbol_rules::shape_of(order.symbol@, order.order_type@, order.price, order.qty) is Ok
            ==> admission_of(order, venue, best) == entry_of(order, venue, best),
{
}

/// Every order of a batch that got as far as an id is answered in its turn: as
/// open under that id, or as rejected without one. The orders that go to the
/// engine are those answered as open, in their order and under distinct ids.
pub proof fn law_batch_ids_run_on(
    m: Map<i64, Map<Seq<char>, AccountBalance>>,
    user_id: i64,
    orders: Seq<Option<PlacementView>>,
    first_id: u64,
)
    requires
        first_id + orders.len() <= u64::MAX,
    ensures
        ({
            let b = batch_after(m, user_id, orders, first_id);
            &&& b.results.len() == b.ids <= orders.len()
            &&& forall|i: int|
                0 <= i < b.results.len() ==> (#[trigger] b.results[i] == (0u64, 0u64, 4u8)
                    || b.results[i] == ((first_id + i) as u64, (first_id + i) as u64, 0u8))
            &&& forall|j: int|
                0 <= j < b.placed.len() ==> {
                    let (at, id) = #[trigger] b.placed[j];
                    &&& 0 <= at < orders.len()
                    &&& orders[at] is Some
                    &&& first_id <= id < first_id + b.ids
                    &&& b.results[id - first_id] == (id, id, 0u8)
                }
            &&& forall|j: int, k: int|
                0 <= j < k < b.placed.len() ==> (#[trigger] b.placed[j]).0 < (
                #[trigger] b.placed[k]).0 && b.placed[j].1 < b.placed[k].1
        }),
    decreases orders.len(),
{
    if orders.len() > 0 {
        let d = orders.drop_last();
        law_batch_ids_run_on(m, user_id, d, first_id);
        let before = batch_after(m, user_id, d, first_id);
        let b = batch_after(m, user_id, orders, first_id);
        assert forall|i: int| 0 <= i < b.results.len() implies (#[trigger] b.results[i] == (
            0u64,
            0u64,
            4u8,
        ) || b.results[i] == ((first_id + i) as u64, (first_id + i) as u64, 0u8)) by {
            if i < before.results.len() {
                assert(b.results[i] == before.results[i]);
            }
        }
        assert forall|j: int| 0 <= j < b.placed.len() implies {
            let (at, id) = #[trigger] b.placed[j];
            &&& 0 <= at < orders.len()
            &&& orders[at] is Some
            &&& first_id <= id < first_id + b.ids
            &&& b.results[id - first_id] == (id, id, 0u8)
        } by {
            if j < before.placed.len() {
                assert(b.placed[j] == before.placed[j]);
                let (at, id) = before.placed[j];
                assert(orders[at] == d[at]);
                assert(b.results[id - first_id] == before.results[id - first_id]);
            }
        }
        assert forall|j: int, k: int| 0 <= j < k < b.placed.len() implies (#[trigger] b.placed[j]).0
            < (#[trigger] b.placed[k]).0 && b.placed[j].1 < b.placed[k].1 by {
            assert(b.placed[j] == before.placed[j]);
            if k < before.placed.len() {
                assert(b.placed[k] == before.placed[k]);
            }
        }
    }
}

/// Of an order book those levels are shown on which something is left, in their
/// order: ticks and lots as amounts.
pub proof fn law_depth_shows_what_is_left(
    levels: Seq<(i64, i64)>,
    rules: SymbolRules,
    shown: (AmountAtoms, AmountAtoms),
)
    ensures
        level_amounts(levels, rules).contains(shown) <==> exists|i: int|
            0 <= i < levels.len() && (#[trigger] levels[i]).1 > 0 && shown == (
                order_entry::units_amount(levels[i].0 as int, rules.price_tick_atoms as int),
                order_entry::units_amount(levels[i].1 as int, rules.quantity_step_atoms as int),
            ),
        (forall|i: int| 0 <= i < levels.len() ==> (#[trigger] levels[i]).1 > 0) ==> level_amounts(
            levels,
            rules,
        ).len() == levels.len(),
    decreases levels.len(),
{
    if levels.len() > 0 {
        let d = levels.drop_last();
        let l = levels.last();
        law_depth_shows_what_is_left(d, rules, shown);
        let rest = level_amounts(d, rules);
        let all = level_amounts(levels, rules);
        let of = |l: (i64, i64)|
            (
                order_entry::units_amount(l.0 as int, rules.price_tick_atoms as int),
                order_entry::units_amount(l.1 as int, rules.quantity_step_atoms as int),
            );
        if rest.contains(shown) {
            let j = choose|j: int| 0 <= j < rest.len() && rest[j] == shown;
            assert(all[j] == shown);
            let i = choose|i: int|
                0 <= i < d.len() && (#[trigger] d[i]).1 > 0 && shown == (
                    order_entry::units_amount(d[i].0 as int, rules.price_tick_atoms as int),
                    order_entry::units_amount(d[i].1 as int, rules.quantity_step_atoms as int),
                );
            assert(levels[i] == d[i]);
        }
        if l.1 > 0 && shown == of(l) {
            assert(levels[levels.len() - 1] == l);
            assert(all[all.len() - 1] == shown);
        }
        if all.contains(shown) && !rest.contains(shown) {
            let j = choose|j: int| 0 <= j < all.len() && all[j] == shown;
            assert(j < rest.len() ==> rest[j] == shown);
            assert(levels[levels.len() - 1] == l);
        }
        if exists|i: int|
            0 <= i < levels.len() && (#[trigger] levels[i]).1 > 0 && shown == of(levels[i]) {
            let i = choose|i: int|
                0 <= i < levels.len() && (#[trigger] levels[i]).1 > 0 && shown == of(levels[i]);
            if i < d.len() {
                assert(d[i] == levels[i]);
            }
        }
        if forall|i: int| 0 <= i < levels.len() ==> (#[trigger] levels[i]).1 > 0 {
            assert forall|i: int| 0 <= i < d.len() implies (#[trigger] d[i]).1 > 0 by {
                assert(levels[i] == d[i]);
            }
            assert(levels[levels.len() - 1].1 > 0);
        }
    }
}

/// A cancelled order gives back what is left of it and no more: a sell the
/// remaining goods, a buy money of the quote.
pub proof fn law_cancel_gives_back_by_side(row: OpenOrderRow)
    requires
        row.quantity.0 >= 0,
        row.filled.0 >= 0,
    ensures
        ({
            let (base, quote) = order_entry::assets_or_default(row.symbol@);
            let left = row.quantity.0 - row.filled.0;
            let r = cancel_release(row);
            &&& left <= 0 ==> r is None
            &&& left > 0 && row.side@ != "buy"@ ==> r == Some((base, AmountAtoms(left as i64)))
            &&& left > 0 && row.side@ == "buy"@ && row.freeze_price.0 <= 0 ==> r is None
            &&& row.side@ == "buy"@ && r is Some ==> (r->0).0 == quote && money::scaled_product(
                row.freeze_price.0 as int,
                left,
            ) == (r->0).1.0
        }),
{
}

/// What was handed on is acknowledged under its id, and what was not is answered
/// as busy: an order, whose hold is then undone, a batch and a cancellation.
pub proof fn law_answers_tell_what_was_handed_on(
    m: Map<i64, Map<Seq<char>, AccountBalance>>,
    user_id: i64,
    p: PlacementView,
    id: u64,
    batch_id: Seq<char>,
    results: Seq<(u64, u64, u8)>,
    order_id: i64,
)
    ensures
        offered(m, user_id, p, id, true, true) == (AfterPushView {
            balances: m,
            forget: None,
            reply: Some(ReplyView::OrderSubmitted(id)),
        }),
        offered(m, user_id, p, id, true, false).reply is None,
        offered(m, user_id, p, id, false, true).forget == Some(id),
        offered(m, user_id, p, id, false, true).reply is Some,
        batch_answer(batch_id, results, Some(true)) == (ReplyView::OrdersPlaced {
            batch_id,
            results,
        }),
        batch_answer(batch_id, results, None) == (ReplyView::OrdersPlaced { batch_id, results }),
        batch_answer(batch_id, results, Some(false)) is Error,
        order_id >= 0 ==> cancel_answer(order_id, true) == ReplyView::CancelSubmitted(
            order_id as u64,
        ),
        cancel_answer(order_id, false) is Error,
{
}

} // verus!
