//! The margin risk engine: reservations, fills, mark prices and the risk tick.
use super::position::{try_position_update, Fill, PositionUpdate};
use super::types::{
    AccountRiskState, LiquidationEvent, PositionRiskState, PositionSide, RiskStatus,
};
use crate::maps::{
    accounts_get, accounts_insert, accounts_len, accounts_new, holders_insert, holders_new,
    holders_remove, numbers_get, numbers_insert, numbers_new, positions_get, positions_insert,
    positions_list, positions_new, positions_remove, Symbol,
};
use crate::money;
use crate::money::saturating_sum;
use dashmap::DashMap;
use std::collections::HashSet;
use vstd::prelude::*;

verus! {

/// Accounts, positions and prices of the margin book.
pub struct RiskEngine {
    accounts: DashMap<i64, AccountRiskState>,
    positions: DashMap<(i64, Symbol), PositionRiskState>,
    mark_prices: DashMap<Symbol, i64>,
    /// Users with an open position, by symbol.
    symbol_position_index: DashMap<Symbol, HashSet<i64>>,
    /// Gross open interest in lots, by symbol.
    symbol_oi_lots: DashMap<Symbol, i64>,
    /// Surplus kept from forced closes; negative where losses had to be absorbed.
    insurance_fund_atoms: i64,
}

/// What the engine holds, as mathematical maps.
#[verifier::ext_equal]
pub struct RiskView {
    pub accounts: Map<i64, AccountRiskState>,
    pub positions: Map<(i64, Symbol), PositionRiskState>,
    pub marks: Map<Symbol, i64>,
    pub holders: Map<Symbol, Set<i64>>,
    pub open_interest: Map<Symbol, i64>,
    pub fund: i64,
}

/// Why an order may not be entered.
#[derive(Clone, Copy, Debug, PartialEq, Eq, Structural)]
pub enum MarginError {
    AccountNotFound,
    AccountInLiquidation,
    InsufficientMargin,
    PositionLimit,
    OpenInterestLimit,
}

impl MarginError {
    pub open spec fn text(self) -> Seq<char> {
        match self {
            MarginError::AccountNotFound => "Account not found"@,
            MarginError::AccountInLiquidation => "Account in liquidation"@,
            MarginError::InsufficientMargin => "Insufficient margin"@,
            MarginError::PositionLimit => "Position limit exceeded"@,
            MarginError::OpenInterestLimit => "Symbol open interest limit exceeded"@,
        }
    }

    pub fn message(self) -> (r: &'static str)
        ensures
            r@ == self.text(),
    {
        match self {
            MarginError::AccountNotFound => "Account not found",
            MarginError::AccountInLiquidation => "Account in liquidation",
            MarginError::InsufficientMargin => "Insufficient margin",
            MarginError::PositionLimit => "Position limit exceeded",
            MarginError::OpenInterestLimit => "Symbol open interest limit exceeded",
        }
    }
}

/// The sum of two 64-bit numbers, modulo 2 to the 64th.
pub open spec fn wrap_sum(a: i64, b: i64) -> i64 {
    let s = a + b;
    if s > i64::MAX {
        (s - 0x1_0000_0000_0000_0000) as i64
    } else if s < i64::MIN {
        (s + 0x1_0000_0000_0000_0000) as i64
    } else {
        s as i64
    }
}

/// The difference of two 64-bit numbers, modulo 2 to the 64th.
pub open spec fn wrap_difference(a: i64, b: i64) -> i64 {
    let s = a - b;
    if s > i64::MAX {
        (s - 0x1_0000_0000_0000_0000) as i64
    } else if s < i64::MIN {
        (s + 0x1_0000_0000_0000_0000) as i64
    } else {
        s as i64
    }
}

pub open spec fn at_least_zero(v: int) -> int {
    if v < 0 {
        0
    } else {
        v
    }
}

/// Whether lots on top of those held go beyond a cap; a cap that is not
/// positive is switched off.
pub open spec fn exceeds(held: int, additional: int, cap: int) -> bool {
    cap > 0 && money::saturate_i64(held + additional) > cap
}

/// What a map holds under a key.
pub open spec fn entry<K, V>(m: Map<K, V>, k: K) -> Option<V> {
    if m.contains_key(k) {
        Some(m[k])
    } else {
        None
    }
}

/// The number a map holds under a symbol, zero where it holds none.
pub open spec fn entry_or_zero(m: Map<Symbol, i64>, k: Symbol) -> i64 {
    if m.contains_key(k) {
        m[k]
    } else {
        0
    }
}

pub open spec fn lots_of(p: Option<PositionRiskState>) -> int {
    match p {
        Some(pos) => pos.qty_lots as int,
        None => 0,
    }
}

pub open spec fn result_of(p: Option<PositionRiskState>) -> int {
    match p {
        Some(pos) => pos.unrealized_pnl as int,
        None => 0,
    }
}

pub open spec fn maintenance_of(p: Option<PositionRiskState>) -> int {
    match p {
        Some(pos) => pos.maintenance_margin as int,
        None => 0,
    }
}

/// The margin that stays bound because the fill opened the side it trades.
pub open spec fn bound_margin(p: Option<PositionRiskState>, side: PositionSide) -> int {
    match p {
        Some(pos) => if pos.side == side {
            pos.initial_margin as int
        } else {
            0
        },
        None => 0,
    }
}

/// What a forced close pays into the insurance fund.
pub open spec fn fund_share(status: Option<RiskStatus>, f: Fill, update: PositionUpdate) -> i64 {
    if update.released_margin <= 0 {
        0
    } else if f.liq_price_ticks != 0 {
        money::trunc_div(spread_atoms(f), f.notional_scale as int) as i64
    } else if status == Some(RiskStatus::Liquidating) {
        update.realized_pnl
    } else {
        0
    }
}

/// The spread between fill and settlement price in favour of the exchange, in
/// atoms before the scale is divided out.
pub open spec fn spread_atoms(f: Fill) -> int {
    let gain: int = if f.order_side == 1 {
        f.price_ticks - f.liq_price_ticks
    } else {
        f.liq_price_ticks - f.price_ticks
    };
    crate::risk::calc::raw_atoms(gain, f.qty_lots as int)
}

pub open spec fn fund_share_fits(f: Fill, update: PositionUpdate) -> bool {
    update.released_margin > 0 && f.liq_price_ticks != 0 ==> {
        &&& money::fits_i64(f.price_ticks - f.liq_price_ticks)
        &&& money::ratio_fits(spread_atoms(f), f.notional_scale as int)
    }
}

/// An account after a fill that turned the position `before` into `update`:
/// an opening fill moves its margin from order to used margin, a closing one
/// sets used margin free and books the result.
pub open spec fn account_filled(
    acct: AccountRiskState,
    f: Fill,
    before: Option<PositionRiskState>,
    update: PositionUpdate,
) -> AccountRiskState {
    let order_margin = at_least_zero(acct.order_margin - f.margin_atoms);
    let closing = update.released_margin > 0;
    let bound = bound_margin(update.position, f.side());
    let used_margin = if closing {
        at_least_zero(acct.used_margin - update.released_margin) + bound
    } else {
        acct.used_margin + f.margin_atoms
    };
    let available = if closing {
        at_least_zero(
            acct.available_margin + f.margin_atoms + update.released_margin + update.realized_pnl
                - bound,
        )
    } else {
        acct.available_margin as int
    };
    let unrealized = acct.unrealized_pnl + (result_of(update.position) - result_of(before));
    AccountRiskState {
        user_id: acct.user_id,
        equity: (available + order_margin + used_margin + unrealized) as i64,
        available_margin: available as i64,
        order_margin: order_margin as i64,
        used_margin: used_margin as i64,
        maintenance_margin: at_least_zero(
            acct.maintenance_margin + (maintenance_of(update.position) - maintenance_of(before)),
        ) as i64,
        unrealized_pnl: unrealized as i64,
        status: if closing && acct.status == RiskStatus::Liquidating {
            RiskStatus::Normal
        } else {
            acct.status
        },
    }
}

/// Whether every step of `account_filled` stays within 64 bits.
pub open spec fn account_filled_fits(
    acct: AccountRiskState,
    f: Fill,
    before: Option<PositionRiskState>,
    update: PositionUpdate,
) -> bool {
    let order_margin = at_least_zero(acct.order_margin - f.margin_atoms);
    let closing = update.released_margin > 0;
    let bound = bound_margin(update.position, f.side());
    let used_margin = if closing {
        at_least_zero(acct.used_margin - update.released_margin) + bound
    } else {
        acct.used_margin + f.margin_atoms
    };
    let freed = acct.available_margin + f.margin_atoms + update.released_margin
        + update.realized_pnl;
    let available = if closing {
        at_least_zero(freed - bound)
    } else {
        acct.available_margin as int
    };
    let unrealized = acct.unrealized_pnl + (result_of(update.position) - result_of(before));
    &&& money::fits_i64(acct.order_margin - f.margin_atoms)
    &&& closing ==> {
        &&& money::fits_i64(acct.used_margin - update.released_margin)
        &&& money::fits_i64(acct.available_margin + f.margin_atoms)
        &&& money::fits_i64(acct.available_margin + f.margin_atoms + update.released_margin)
        &&& money::fits_i64(freed)
        &&& money::fits_i64(freed - bound)
    }
    &&& money::fits_i64(used_margin)
    &&& money::fits_i64(unrealized)
    &&& money::fits_i64(
        acct.maintenance_margin + (maintenance_of(update.position) - maintenance_of(before)),
    )
    &&& money::fits_i64(available + order_margin)
    &&& money::fits_i64(available + order_margin + used_margin)
    &&& money::fits_i64(available + order_margin + used_margin + unrealized)
}

/// Whether the engine can book the fill within machine arithmetic.
pub open spec fn fill_fits(v: RiskView, f: Fill) -> bool {
    let before = entry(v.positions, f.key());
    let update = crate::risk::position::updated(before, f, f.settlement_price());
    &&& crate::risk::position::update_fits(before, f, f.settlement_price())
    &&& money::fits_i64(result_of(update.position) - result_of(before))
    &&& money::fits_i64(maintenance_of(update.position) - maintenance_of(before))
    &&& money::fits_i64(lots_of(update.position) - lots_of(before))
    &&& fund_share_fits(f, update)
    &&& v.accounts.contains_key(f.user_id) ==> account_filled_fits(
        v.accounts[f.user_id],
        f,
        before,
        update,
    )
}

/// The engine after a fill.
pub open spec fn filled(v: RiskView, f: Fill) -> RiskView {
    let before = entry(v.positions, f.key());
    let update = crate::risk::position::updated(before, f, f.settlement_price());
    let delta = (lots_of(update.position) - lots_of(before)) as i64;
    let status = if v.accounts.contains_key(f.user_id) {
        Some(v.accounts[f.user_id].status)
    } else {
        None
    };
    RiskView {
        accounts: if v.accounts.contains_key(f.user_id) {
            v.accounts.insert(
                f.user_id,
                account_filled(v.accounts[f.user_id], f, before, update),
            )
        } else {
            v.accounts
        },
        positions: match update.position {
            Some(pos) => v.positions.insert(f.key(), pos),
            None => v.positions.remove(f.key()),
        },
        marks: if v.marks.contains_key(f.symbol) {
            v.marks
        } else {
            v.marks.insert(f.symbol, f.price_ticks)
        },
        holders: if lots_of(update.position) > 0 {
            v.holders.insert(
                f.symbol,
                if v.holders.contains_key(f.symbol) {
                    v.holders[f.symbol].insert(f.user_id)
                } else {
                    Set::empty().insert(f.user_id)
                },
            )
        } else if v.holders.contains_key(f.symbol) {
            v.holders.insert(f.symbol, v.holders[f.symbol].remove(f.user_id))
        } else {
            v.holders
        },
        open_interest: if delta != 0 {
            v.open_interest.insert(
                f.symbol,
                wrap_sum(entry_or_zero(v.open_interest, f.symbol), delta),
            )
        } else {
            v.open_interest
        },
        fund: wrap_sum(v.fund, fund_share(status, f, update)),
    }
}

/// The smoothed mark: a tenth of the new price and nine tenths of the old mark.
pub open spec fn smoothed(v: RiskView, symbol: Symbol, price: i64) -> int {
    let old = if v.marks.contains_key(symbol) {
        v.marks[symbol]
    } else {
        price
    };
    money::trunc_div(price + 9 * old, 10)
}

pub open spec fn smoothed_fits(v: RiskView, symbol: Symbol, price: i64) -> bool {
    let old = if v.marks.contains_key(symbol) {
        v.marks[symbol]
    } else {
        price
    };
    money::fits_i64(9 * old) && money::fits_i64(price + 9 * old)
}

/// Whether the user's position is revalued when the symbol is marked.
pub open spec fn marked_user(v: RiskView, symbol: Symbol, user_id: i64) -> bool {
    &&& v.holders.contains_key(symbol)
    &&& v.holders[symbol].contains(user_id)
    &&& v.positions.contains_key((user_id, symbol))
}

/// A position valued at a mark.
pub open spec fn position_marked(
    pos: PositionRiskState,
    mark: i64,
    scale: i64,
) -> PositionRiskState {
    crate::risk::position::revalued(PositionRiskState { mark_price_ticks: mark, ..pos }, scale)
}

/// An account whose open result moved from `before` to `after`.
pub open spec fn account_marked(
    acct: AccountRiskState,
    before: i64,
    after: i64,
) -> AccountRiskState {
    let unrealized = acct.unrealized_pnl + (after - before);
    AccountRiskState {
        unrealized_pnl: unrealized as i64,
        equity: (acct.available_margin + acct.order_margin + acct.used_margin + unrealized) as i64,
        ..acct
    }
}

pub open spec fn account_marked_fits(acct: AccountRiskState, before: i64, after: i64) -> bool {
    let unrealized = acct.unrealized_pnl + (after - before);
    &&& money::fits_i64(unrealized)
    &&& money::fits_i64(acct.available_margin + acct.order_margin)
    &&& money::fits_i64(acct.available_margin + acct.order_margin + acct.used_margin)
    &&& money::fits_i64(
        acct.available_margin + acct.order_margin + acct.used_margin + unrealized,
    )
}

pub open spec fn user_mark_fits(
    v: RiskView,
    symbol: Symbol,
    mark: i64,
    scale: i64,
    user_id: i64,
) -> bool {
    let pos = v.positions[(user_id, symbol)];
    let next = position_marked(pos, mark, scale);
    &&& crate::risk::position::revalue_fits(
        PositionRiskState { mark_price_ticks: mark, ..pos },
        scale,
    )
    &&& money::fits_i64(next.unrealized_pnl - pos.unrealized_pnl)
    &&& v.accounts.contains_key(user_id) ==> account_marked_fits(
        v.accounts[user_id],
        pos.unrealized_pnl,
        next.unrealized_pnl,
    )
}

/// Whether the symbol can be marked within machine arithmetic.
pub open spec fn mark_fits(v: RiskView, symbol: Symbol, price: i64, scale: i64) -> bool {
    &&& smoothed_fits(v, symbol, price)
    &&& forall|u: i64| #[trigger]
        marked_user(v, symbol, u) ==> user_mark_fits(
            v,
            symbol,
            smoothed(v, symbol, price) as i64,
            scale,
            u,
        )
}

/// The engine after the positions of the users in `done` have been marked.
pub open spec fn users_marked(
    v: RiskView,
    symbol: Symbol,
    mark: i64,
    scale: i64,
    done: Set<i64>,
) -> RiskView {
    RiskView {
        accounts: v.accounts.map_entries(
            |u: i64, acct: AccountRiskState|
                if done.contains(u) && marked_user(v, symbol, u) {
                    account_marked(
                        acct,
                        v.positions[(u, symbol)].unrealized_pnl,
                        position_marked(v.positions[(u, symbol)], mark, scale).unrealized_pnl,
                    )
                } else {
                    acct
                },
        ),
        positions: v.positions.map_entries(
            |k: (i64, Symbol), pos: PositionRiskState|
                if k.1 == symbol && done.contains(k.0) && marked_user(v, symbol, k.0) {
                    position_marked(pos, mark, scale)
                } else {
                    pos
                },
        ),
        marks: v.marks.insert(symbol, mark),
        ..v
    }
}

/// The engine after a new price for a symbol: the mark is smoothed and every
/// position in the symbol is valued at it.
pub open spec fn marked(v: RiskView, symbol: Symbol, price: i64, scale: i64) -> RiskView {
    users_marked(
        v,
        symbol,
        smoothed(v, symbol, price) as i64,
        scale,
        if v.holders.contains_key(symbol) {
            v.holders[symbol]
        } else {
            Set::empty()
        },
    )
}

/// Whether the user holds any position.
pub open spec fn exposed(v: RiskView, user_id: i64) -> bool {
    exists|s: Symbol| v.positions.contains_key((user_id, s))
}

/// The status that an account's figures call for.
pub open spec fn assessed(acct: AccountRiskState) -> RiskStatus {
    if acct.used_margin == 0 {
        RiskStatus::Normal
    } else if acct.equity <= 0 {
        RiskStatus::Bankruptcy
    } else if acct.equity <= acct.maintenance_margin {
        RiskStatus::LiquidationPending
    } else if acct.equity * 2 < 3 * acct.maintenance_margin {
        RiskStatus::MarginCall
    } else {
        RiskStatus::Normal
    }
}

/// Whether the risk tick decides on the account at all.
pub open spec fn assessable(acct: AccountRiskState) -> bool {
    acct.status != RiskStatus::Liquidating && acct.status != RiskStatus::Liquidated && acct.status
        != RiskStatus::Bankruptcy
}

/// An account after a risk tick.
pub open spec fn account_ticked(v: RiskView, user_id: i64) -> AccountRiskState {
    let acct = v.accounts[user_id];
    if exposed(v, user_id) && assessable(acct) {
        AccountRiskState { status: assessed(acct), ..acct }
    } else {
        acct
    }
}

/// Whether this tick is the one that sends the user's positions to liquidation.
pub open spec fn newly_pending(v: RiskView, user_id: i64) -> bool {
    &&& v.accounts.contains_key(user_id)
    &&& exposed(v, user_id)
    &&& assessable(v.accounts[user_id])
    &&& v.accounts[user_id].status != RiskStatus::LiquidationPending
    &&& assessed(v.accounts[user_id]) == RiskStatus::LiquidationPending
}

/// The engine after a risk tick.
pub open spec fn ticked(v: RiskView) -> RiskView {
    RiskView {
        accounts: v.accounts.map_entries(
            |u: i64, acct: AccountRiskState| account_ticked(v, u),
        ),
        ..v
    }
}

pub open spec fn liquidation_of(pos: PositionRiskState, k: (i64, Symbol)) -> LiquidationEvent {
    LiquidationEvent {
        user_id: k.0,
        symbol: k.1,
        side: pos.side,
        qty_lots: pos.qty_lots,
        liq_price_ticks: pos.liquidation_price_ticks,
    }
}

/// `events` lists every position of the newly pending users, each once.
pub open spec fn liquidates(v: RiskView, events: Seq<LiquidationEvent>) -> bool {
    &&& forall|i: int|
        0 <= i < events.len() ==> {
            let k = ((#[trigger] events[i]).user_id, events[i].symbol);
            &&& v.positions.contains_key(k)
            &&& newly_pending(v, k.0)
            &&& events[i] == liquidation_of(v.positions[k], k)
        }
    &&& forall|k: (i64, Symbol)| #[trigger]
        v.positions.contains_key(k) && newly_pending(v, k.0) ==> exists|i: int|
            0 <= i < events.len() && (#[trigger] events[i]).user_id == k.0 && events[i].symbol
                == k.1
    &&& forall|i: int, j: int|
        0 <= i < j < events.len() ==> (events[i].user_id, events[i].symbol) != (
            events[j].user_id,
            events[j].symbol,
        )
}

/// The lots that the users in `users` hold of a symbol.
pub open spec fn total_lots(v: RiskView, symbol: Symbol, users: Set<i64>) -> int
    decreases users.len(),
{
    if users.finite() && users.len() > 0 {
        let u = users.choose();
        lots_of(entry(v.positions, (u, symbol))) + total_lots(v, symbol, users.remove(u))
    } else {
        0
    }
}

pub open spec fn holders_of(v: RiskView, symbol: Symbol) -> Set<i64> {
    if v.holders.contains_key(symbol) {
        v.holders[symbol]
    } else {
        Set::empty()
    }
}

/// Whether two integers agree modulo 2 to the 64th.
pub open spec fn same_word(a: int, b: int) -> bool {
    (a - b) % 0x1_0000_0000_0000_0000 == 0
}

impl RiskView {
    /// Accounts and positions are filed under their own keys, positions are
    /// not empty, the index lists exactly the holders of each symbol, and open
    /// interest adds up their lots.
    pub open spec fn consistent(self) -> bool {
        &&& self.accounts.dom().finite()
        &&& forall|u: i64| #[trigger]
            self.accounts.contains_key(u) ==> self.accounts[u].user_id == u
        &&& forall|k: (i64, Symbol)| #[trigger]
            self.positions.contains_key(k) ==> {
                let pos = self.positions[k];
                &&& pos.user_id == k.0
                &&& pos.symbol == k.1
                &&& pos.qty_lots > 0
            }
        &&& forall|s: Symbol, u: i64|
            #![trigger holders_of(self, s).contains(u)]
            #![trigger self.positions.contains_key((u, s))]
            holders_of(self, s).contains(u) <==> self.positions.contains_key((u, s))
        &&& forall|s: Symbol| (#[trigger] holders_of(self, s)).finite()
        &&& forall|s: Symbol|
            same_word(
                #[trigger] entry_or_zero(self.open_interest, s) as int,
                total_lots(self, s, holders_of(self, s)),
            )
    }
}

/// Taking one holder apart from the rest leaves the total lots unchanged.
proof fn lemma_total_lots_split(v: RiskView, symbol: Symbol, users: Set<i64>, u: i64)
    requires
        users.finite(),
        users.contains(u),
    ensures
        total_lots(v, symbol, users) == lots_of(entry(v.positions, (u, symbol))) + total_lots(
            v,
            symbol,
            users.remove(u),
        ),
    decreases users.len(),
{
    let c = users.choose();
    assert(users.len() > 0) by {
        if users.len() == 0 {
            users.lemma_len0_is_empty();
        }
    }
    assert(users.contains(c));
    if c != u {
        lemma_total_lots_split(v, symbol, users.remove(c), u);
        lemma_total_lots_split(v, symbol, users.remove(u), c);
        assert(users.remove(c).remove(u) =~= users.remove(u).remove(c));
    }
}

/// The total depends only on the positions of the users it adds up.
proof fn lemma_total_lots_same(a: RiskView, b: RiskView, symbol: Symbol, users: Set<i64>)
    requires
        users.finite(),
        forall|u: i64| #[trigger]
            users.contains(u) ==> entry(a.positions, (u, symbol)) == entry(
                b.positions,
                (u, symbol),
            ),
    ensures
        total_lots(a, symbol, users) == total_lots(b, symbol, users),
    decreases users.len(),
{
    if users.len() > 0 {
        let c = users.choose();
        assert(users.contains(c));
        lemma_total_lots_same(a, b, symbol, users.remove(c));
    }
}

proof fn lemma_wrap_sum_word(a: i64, b: i64)
    ensures
        same_word(wrap_sum(a, b) as int, a + b),
{
}

proof fn lemma_same_word_shift(a: int, b: int, c: int, d: int)
    requires
        same_word(a, b),
        same_word(c, a + d),
    ensures
        same_word(c, b + d),
{
    let w = 0x1_0000_0000_0000_0000int;
    assert(c - (b + d) == (c - (a + d)) + (a - b));
    vstd::arithmetic::div_mod::lemma_add_mod_noop(c - (a + d), a - b, w);
}

/// Every fill keeps the book consistent: the index and the open interest
/// follow the positions.
pub proof fn law_fill_keeps_book_consistent(v: RiskView, f: Fill)
    requires
        v.consistent(),
        f.qty_lots > 0,
        fill_fits(v, f),
    ensures
        filled(v, f).consistent(),
{
    let before = entry(v.positions, f.key());
    let update = crate::risk::position::updated(before, f, f.settlement_price());
    let w = filled(v, f);
    let u = f.user_id;
    if before is Some {
        assert(v.positions.contains_key(f.key()));
        assert(v.positions[f.key()].qty_lots > 0);
    }
    assert(update.position is Some ==> {
        let pos = update.position->0;
        &&& pos.user_id == f.user_id
        &&& pos.symbol == f.symbol
        &&& pos.qty_lots > 0
    });
    assert(entry(w.positions, f.key()) == update.position);
    assert forall|s: Symbol, x: i64|
        holders_of(w, s).contains(x) <==> w.positions.contains_key((x, s)) by {
        if s == f.symbol && x == u {
        } else {
            assert(w.positions.contains_key((x, s)) == v.positions.contains_key((x, s)));
            assert(holders_of(v, s).contains(x) <==> v.positions.contains_key((x, s)));
        }
    }
    assert forall|s: Symbol| (#[trigger] holders_of(w, s)).finite() by {
        assert(holders_of(v, s).finite());
    }
    assert forall|s: Symbol|
        same_word(
            #[trigger] entry_or_zero(w.open_interest, s) as int,
            total_lots(w, s, holders_of(w, s)),
        ) by {
        let h = holders_of(v, s);
        assert(h.finite());
        assert(same_word(entry_or_zero(v.open_interest, s) as int, total_lots(v, s, h)));
        if s != f.symbol {
            assert(holders_of(w, s) == h);
            assert forall|x: i64| #[trigger] h.contains(x) implies entry(v.positions, (x, s))
                == entry(w.positions, (x, s)) by {}
            lemma_total_lots_same(v, w, s, h);
        } else {
            let rest = h.remove(u);
            assert forall|x: i64| #[trigger] rest.contains(x) implies entry(v.positions, (x, s))
                == entry(w.positions, (x, s)) by {}
            lemma_total_lots_same(v, w, s, rest);
            assert(h.contains(u) <==> v.positions.contains_key((u, s)));
            if h.contains(u) {
                lemma_total_lots_split(v, s, h, u);
            } else {
                assert(rest =~= h);
            }
            let k = holders_of(w, s);
            assert(k.remove(u) =~= rest);
            if k.contains(u) {
                lemma_total_lots_split(w, s, k, u);
            } else {
                assert(k =~= rest);
            }
            let delta = lots_of(update.position) - lots_of(before);
            assert(total_lots(w, s, k) == total_lots(v, s, h) + delta);
            let old_oi = entry_or_zero(v.open_interest, s);
            if delta != 0 {
                lemma_wrap_sum_word(old_oi, delta as i64);
                lemma_same_word_shift(
                    old_oi as int,
                    total_lots(v, s, h),
                    wrap_sum(old_oi, delta as i64) as int,
                    delta,
                );
            }
        }
    }
}

fn narrow(v: i128) -> (r: Option<i64>)
    ensures
        r is Some <==> money::fits_i64(v as int),
        r is Some ==> r->0 == v,
{
    if v > i64::MAX as i128 || v < i64::MIN as i128 {
        None
    } else {
        Some(v as i64)
    }
}

fn floor_zero(v: i64) -> (r: i64)
    ensures
        r == at_least_zero(v as int),
{
    if v < 0 {
        0
    } else {
        v
    }
}

fn side_of(f: &Fill) -> (r: PositionSide)
    ensures
        r == f.side(),
{
    if f.order_side == 0 {
        PositionSide::Long
    } else {
        PositionSide::Short
    }
}

fn bound_of(p: &Option<PositionRiskState>, side: PositionSide) -> (r: i64)
    ensures
        r == bound_margin(*p, side),
{
    match p {
        Some(pos) => if pos.side == side {
            pos.initial_margin
        } else {
            0
        },
        None => 0,
    }
}

fn lots(p: &Option<PositionRiskState>) -> (r: i64)
    ensures
        r == lots_of(*p),
{
    match p {
        Some(pos) => pos.qty_lots,
        None => 0,
    }
}

fn open_pnl(p: &Option<PositionRiskState>) -> (r: i64)
    ensures
        r == result_of(*p),
{
    match p {
        Some(pos) => pos.unrealized_pnl,
        None => 0,
    }
}

fn maintenance_margin(p: &Option<PositionRiskState>) -> (r: i64)
    ensures
        r == maintenance_of(*p),
{
    match p {
        Some(pos) => pos.maintenance_margin,
        None => 0,
    }
}

/// The margin buckets of an account after a fill, or `None` where a step would
/// leave 64 bits.
fn try_account_filled(
    acct: &AccountRiskState,
    f: &Fill,
    before: &Option<PositionRiskState>,
    update: &PositionUpdate,
) -> (r: Option<AccountRiskState>)
    ensures
        r is Some <==> account_filled_fits(*acct, *f, *before, *update),
        r is Some ==> r->0 == account_filled(*acct, *f, *before, *update),
{
    let closing = update.released_margin > 0;
    let bound = bound_of(&update.position, side_of(f)) as i128;
    let order_margin = floor_zero(narrow(acct.order_margin as i128 - f.margin_atoms as i128)?);
    let mut used_margin: i64 = 0;
    let mut available_margin: i64 = acct.available_margin;
    if closing {
        let kept = floor_zero(narrow(acct.used_margin as i128 - update.released_margin as i128)?);
        used_margin = narrow(kept as i128 + bound)?;
        let a = narrow(acct.available_margin as i128 + f.margin_atoms as i128)?;
        let b = narrow(a as i128 + update.released_margin as i128)?;
        let c = narrow(b as i128 + update.realized_pnl as i128)?;
        available_margin = floor_zero(narrow(c as i128 - bound)?);
    } else {
        used_margin = narrow(acct.used_margin as i128 + f.margin_atoms as i128)?;
    }
    let moved = open_pnl(&update.position) as i128 - open_pnl(before) as i128;
    let unrealized_pnl = narrow(acct.unrealized_pnl as i128 + moved)?;
    let maintenance_moved = maintenance_margin(&update.position) as i128 - maintenance_margin(
        before,
    ) as i128;
    let maintenance = floor_zero(narrow(acct.maintenance_margin as i128 + maintenance_moved)?);
    let a = narrow(available_margin as i128 + order_margin as i128)?;
    let b = narrow(a as i128 + used_margin as i128)?;
    let equity = narrow(b as i128 + unrealized_pnl as i128)?;
    let status = if closing && acct.status == RiskStatus::Liquidating {
        RiskStatus::Normal
    } else {
        acct.status
    };
    Some(
        AccountRiskState {
            user_id: acct.user_id,
            equity,
            available_margin,
            order_margin,
            used_margin,
            maintenance_margin: maintenance,
            unrealized_pnl,
            status,
        },
    )
}

/// What a forced close pays into the fund, or `None` where a step would leave
/// machine arithmetic.
fn try_fund_share(status: Option<RiskStatus>, f: &Fill, update: &PositionUpdate) -> (r: Option<i64>)
    ensures
        r is Some <==> fund_share_fits(*f, *update),
        r is Some ==> r->0 == fund_share(status, *f, *update),
{
    if update.released_margin <= 0 {
        return Some(0);
    }
    if f.liq_price_ticks != 0 {
        let spread = f.price_ticks.checked_sub(f.liq_price_ticks)? as i128;
        let signed = if f.order_side == 1 {
            spread
        } else {
            -spread
        };
        proof {
            assert(-0x4000_0000_0000_0000_0000_0000_0000_0000 <= signed * f.qty_lots
                <= 0x4000_0000_0000_0000_0000_0000_0000_0000) by (nonlinear_arith)
                requires
                    -0x8000_0000_0000_0000 <= signed <= 0x8000_0000_0000_0000,
                    -0x8000_0000_0000_0000 <= f.qty_lots <= 0x7fff_ffff_ffff_ffff,
            ;
        }
        let product = signed * f.qty_lots as i128;
        let raw = product.checked_mul(crate::risk::calc::ATOMS_PER_CENT)?;
        let share = raw.checked_div(f.notional_scale as i128)?;
        Some(share as i64)
    } else {
        match status {
            Some(RiskStatus::Liquidating) => Some(update.realized_pnl),
            _ => Some(0),
        }
    }
}

impl RiskEngine {
    pub closed spec fn view(&self) -> RiskView {
        RiskView {
            accounts: crate::maps::account_entries(self.accounts),
            positions: crate::maps::position_entries(self.positions),
            marks: crate::maps::number_entries(self.mark_prices),
            holders: crate::maps::holder_entries(self.symbol_position_index),
            open_interest: crate::maps::number_entries(self.symbol_oi_lots),
            fund: self.insurance_fund_atoms,
        }
    }

    /// The engine's book is consistent.
    pub open spec fn wf(&self) -> bool {
        self.view().consistent()
    }

    /// An engine without accounts, positions or prices.
    pub fn new() -> (r: RiskEngine)
        ensures
            r.wf(),
            (r.view().accounts == Map::<i64, AccountRiskState>::empty()),
            (r.view().positions == Map::<(i64, Symbol), PositionRiskState>::empty()),
            (r.view().marks == Map::<Symbol, i64>::empty()),
            (r.view().open_interest == Map::<Symbol, i64>::empty()),
            (r.view().holders == Map::<Symbol, Set<i64>>::empty()),
            r.view().fund == 0,
    {
        RiskEngine {
            accounts: accounts_new(),
            positions: positions_new(),
            mark_prices: numbers_new(),
            symbol_position_index: holders_new(),
            symbol_oi_lots: numbers_new(),
            insurance_fund_atoms: 0,
        }
    }

    /// The insurance fund in atoms.
    pub fn insurance_fund(&self) -> (r: i64)
        ensures
            r == self.view().fund,
    {
        self.insurance_fund_atoms
    }

    /// The margin account of a user.
    pub fn account(&self, user_id: i64) -> (r: Option<AccountRiskState>)
        ensures
            r == entry(self.view().accounts, user_id),
    {
        accounts_get(&self.accounts, user_id)
    }

    /// The position of a user in a symbol.
    pub fn position(&self, user_id: i64, symbol: &Symbol) -> (r: Option<PositionRiskState>)
        ensures
            r == entry(self.view().positions, (user_id, *symbol)),
    {
        positions_get(&self.positions, (user_id, *symbol))
    }

    /// Opens a fresh margin account, in place of any earlier one.
    pub fn initialize_account(&mut self, user_id: i64, usdt_balance_atoms: i64)
        requires
            old(self).wf(),
        ensures
            final(self).wf(),
            final(self).view() == (RiskView {
                accounts: old(self).view().accounts.insert(
                    user_id,
                    AccountRiskState::fresh(user_id, usdt_balance_atoms),
                ),
                ..old(self).view()
            }),
    {
        accounts_insert(
            &mut self.accounts,
            user_id,
            AccountRiskState::new(user_id, usdt_balance_atoms),
        );
        proof {
            lemma_accounts_do_not_matter(old(self).view(), self.view());
        }
    }

    pub fn account_count(&self) -> (r: usize)
        ensures
            r == self.view().accounts.len(),
    {
        accounts_len(&self.accounts)
    }

    pub fn mark_price_ticks(&self, symbol: &Symbol) -> (r: Option<i64>)
        ensures
            r == entry(self.view().marks, *symbol),
    {
        numbers_get(&self.mark_prices, symbol)
    }

    /// Sets the mark of a symbol outright, without smoothing.
    pub fn force_mark_price_for_test(&mut self, symbol: Symbol, price_ticks: i64)
        requires
            old(self).wf(),
        ensures
            final(self).wf(),
            final(self).view() == (RiskView {
                marks: old(self).view().marks.insert(symbol, price_ticks),
                ..old(self).view()
            }),
    {
        numbers_insert(&mut self.mark_prices, symbol, price_ticks);
        proof {
            lemma_accounts_do_not_matter(old(self).view(), self.view());
        }
    }

    /// Sets the status of an account; tells whether there is one.
    pub fn set_account_status(&mut self, user_id: i64, status: RiskStatus) -> (r: bool)
        requires
            old(self).wf(),
        ensures
            final(self).wf(),
            r == old(self).view().accounts.contains_key(user_id),
            final(self).view() == (if r {
                RiskView {
                    accounts: old(self).view().accounts.insert(
                        user_id,
                        AccountRiskState { status, ..old(self).view().accounts[user_id] },
                    ),
                    ..old(self).view()
                }
            } else {
                old(self).view()
            }),
    {
        match accounts_get(&self.accounts, user_id) {
            Some(acct) => {
                let mut next = acct;
                next.status = status;
                accounts_insert(&mut self.accounts, user_id, next);
                proof {
                    lemma_accounts_do_not_matter(old(self).view(), self.view());
                }
                true
            },
            None => false,
        }
    }

    /// Sets the status of an account only where it is the expected one.
    pub fn set_account_status_if(
        &mut self,
        user_id: i64,
        expected: RiskStatus,
        status: RiskStatus,
    ) -> (r: bool)
        requires
            old(self).wf(),
        ensures
            final(self).wf(),
            r == (old(self).view().accounts.contains_key(user_id)
                && old(self).view().accounts[user_id].status == expected),
            final(self).view() == (if r {
                RiskView {
                    accounts: old(self).view().accounts.insert(
                        user_id,
                        AccountRiskState { status, ..old(self).view().accounts[user_id] },
                    ),
                    ..old(self).view()
                }
            } else {
                old(self).view()
            }),
    {
        match accounts_get(&self.accounts, user_id) {
            Some(acct) => {
                if acct.status != expected {
                    return false;
                }
                self.set_account_status(user_id, status)
            },
            None => false,
        }
    }

    /// Gross open interest of a symbol in lots.
    pub fn symbol_open_interest_lots(&self, symbol: &Symbol) -> (r: i64)
        ensures
            r == at_least_zero(entry_or_zero(self.view().open_interest, *symbol) as int),
    {
        match numbers_get(&self.symbol_oi_lots, symbol) {
            Some(v) => floor_zero(v),
            None => 0,
        }
    }

    /// Caps what one user holds of a symbol, counting the whole new order; a
    /// cap that is not positive is switched off.
    pub fn check_position_limit(
        &self,
        user_id: i64,
        symbol: &Symbol,
        additional_lots: i64,
        max_position_lots: i64,
    ) -> (r: Result<(), MarginError>)
        ensures
            r == (if exceeds(
                lots_of(entry(self.view().positions, (user_id, *symbol))),
                additional_lots as int,
                max_position_lots as int,
            ) {
                Err::<(), MarginError>(MarginError::PositionLimit)
            } else {
                Ok(())
            }),
    {
        if max_position_lots <= 0 {
            return Ok(());
        }
        let current = lots(&positions_get(&self.positions, (user_id, *symbol)));
        if saturating_sum(current, additional_lots) > max_position_lots {
            return Err(MarginError::PositionLimit);
        }
        Ok(())
    }

    /// Caps the open interest of a symbol; a cap that is not positive is
    /// switched off.
    pub fn check_symbol_oi_limit(
        &self,
        symbol: &Symbol,
        additional_lots: i64,
        max_oi_lots: i64,
    ) -> (r: Result<(), MarginError>)
        ensures
            r == (if exceeds(
                at_least_zero(entry_or_zero(self.view().open_interest, *symbol) as int),
                additional_lots as int,
                max_oi_lots as int,
            ) {
                Err::<(), MarginError>(MarginError::OpenInterestLimit)
            } else {
                Ok(())
            }),
    {
        if max_oi_lots <= 0 {
            return Ok(());
        }
        if saturating_sum(self.symbol_open_interest_lots(symbol), additional_lots) > max_oi_lots {
            return Err(MarginError::OpenInterestLimit);
        }
        Ok(())
    }

    /// Moves margin from available to order margin where the account may trade
    /// and has enough; nothing changes otherwise.
    pub fn check_and_reserve_margin(&mut self, user_id: i64, initial_margin_atoms: i64) -> (r:
        Result<i64, MarginError>)
        requires
            old(self).wf(),
            reservation(old(self).view(), user_id, initial_margin_atoms) is Ok ==> money::fits_i64(
                old(self).view().accounts[user_id].available_margin - initial_margin_atoms,
            ),
        ensures
            final(self).wf(),
            r == reservation(old(self).view(), user_id, initial_margin_atoms),
            final(self).view() == (if r is Ok {
                reserved(old(self).view(), user_id, initial_margin_atoms)
            } else {
                old(self).view()
            }),
    {
        let acct = match accounts_get(&self.accounts, user_id) {
            Some(acct) => acct,
            None => {
                return Err(MarginError::AccountNotFound);
            },
        };
        if !acct.can_place_order() {
            return Err(MarginError::AccountInLiquidation);
        }
        if acct.available_margin < initial_margin_atoms {
            return Err(MarginError::InsufficientMargin);
        }
        let mut next = acct;
        next.available_margin = acct.available_margin - initial_margin_atoms;
        next.order_margin = acct.order_margin.wrapping_add(initial_margin_atoms);
        accounts_insert(&mut self.accounts, user_id, next);
        proof {
            lemma_accounts_do_not_matter(old(self).view(), self.view());
        }
        Ok(initial_margin_atoms)
    }

    /// Moves margin back from order to available margin; both counters wrap.
    pub fn release_order_margin(&mut self, user_id: i64, initial_margin_atoms: i64)
        requires
            old(self).wf(),
        ensures
            final(self).wf(),
            final(self).view() == released(old(self).view(), user_id, initial_margin_atoms),
    {
        if let Some(acct) = accounts_get(&self.accounts, user_id) {
            let mut next = acct;
            next.available_margin = acct.available_margin.wrapping_add(initial_margin_atoms);
            next.order_margin = acct.order_margin.wrapping_sub(initial_margin_atoms);
            accounts_insert(&mut self.accounts, user_id, next);
            proof {
                lemma_accounts_do_not_matter(old(self).view(), self.view());
            }
        }
    }
}

/// The users in a set, each once.
fn members(set: &HashSet<i64>) -> (r: Vec<i64>)
    ensures
        r@.no_duplicates(),
        forall|u: i64| set@.contains(u) <==> #[trigger] r@.contains(u),
{
    broadcast use vstd::std_specs::hash::group_hash_axioms;

    let mut out: Vec<i64> = Vec::new();
    for u in it: set.iter()
        invariant
            out@.len() == it.index(),
            forall|i: int| 0 <= i < out@.len() ==> out@[i] == *it.seq()[i],
    {
        out.push(*u);
    }
    proof {
        let walked = vstd::std_specs::iter::IteratorSpec::remaining(&set.iter()).unref();
        assert(walked.to_set() == set@);
        assert(out@ =~= walked);
        assert forall|u: i64| set@.contains(u) <==> #[trigger] out@.contains(u) by {
            assert(walked.to_set().contains(u) <==> walked.contains(u));
        }
        assert forall|i: int, j: int| 0 <= i < j < out@.len() implies out@[i] != out@[j] by {
            assert(vstd::std_specs::iter::IteratorSpec::remaining(&set.iter())[i] != vstd::std_specs::iter::IteratorSpec::remaining(&set.iter())[j]);
        }
    }
    out
}

impl RiskEngine {
    /// Books a fill where every step stays within machine arithmetic; tells
    /// whether it did, and changes nothing otherwise. A fill without lots is
    /// booked as nothing.
    pub fn try_on_fill(&mut self, f: &Fill) -> (r: bool)
        requires
            old(self).wf(),
        ensures
            final(self).wf(),
            r == (f.qty_lots <= 0 || fill_fits(old(self).view(), *f)),
            final(self).view() == (if r && f.qty_lots > 0 {
                filled(old(self).view(), *f)
            } else {
                old(self).view()
            }),
    {
        if f.qty_lots <= 0 {
            return true;
        }
        let key = (f.user_id, f.symbol);
        let price = if f.liq_price_ticks != 0 {
            f.liq_price_ticks
        } else {
            f.price_ticks
        };
        let before = positions_get(&self.positions, key);
        let update = match try_position_update(before, f, price) {
            Some(update) => update,
            None => {
                return false;
            },
        };
        if open_pnl(&update.position).checked_sub(open_pnl(&before)).is_none()
            || maintenance_margin(&update.position).checked_sub(
            maintenance_margin(&before),
        ).is_none() {
            return false;
        }
        let lots_moved = match lots(&update.position).checked_sub(lots(&before)) {
            Some(v) => v,
            None => {
                return false;
            },
        };
        let account = accounts_get(&self.accounts, f.user_id);
        let status = match account {
            Some(acct) => Some(acct.status),
            None => None,
        };
        let fund = match try_fund_share(status, f, &update) {
            Some(v) => v,
            None => {
                return false;
            },
        };
        if let Some(acct) = account {
            match try_account_filled(&acct, f, &before, &update) {
                Some(next) => {
                    accounts_insert(&mut self.accounts, f.user_id, next);
                },
                None => {
                    return false;
                },
            }
        }
        match update.position {
            Some(pos) => {
                positions_insert(&mut self.positions, key, pos);
            },
            None => {
                positions_remove(&mut self.positions, key);
            },
        }
        if lots_moved != 0 {
            let interest = match numbers_get(&self.symbol_oi_lots, &f.symbol) {
                Some(v) => v,
                None => 0,
            };
            numbers_insert(&mut self.symbol_oi_lots, f.symbol, interest.wrapping_add(lots_moved));
        }
        self.insurance_fund_atoms = self.insurance_fund_atoms.wrapping_add(fund);
        if numbers_get(&self.mark_prices, &f.symbol).is_none() {
            numbers_insert(&mut self.mark_prices, f.symbol, f.price_ticks);
        }
        self.index_holder(f.symbol, f.user_id, lots(&update.position) > 0);
        proof {
            assert(self.view() =~= filled(old(self).view(), *f));
            law_fill_keeps_book_consistent(old(self).view(), *f);
        }
        true
    }

    /// Lists or drops a user among the holders of a symbol.
    fn index_holder(&mut self, symbol: Symbol, user_id: i64, holds: bool)
        ensures
            final(self).view() == (RiskView {
                holders: if holds {
                    old(self).view().holders.insert(
                        symbol,
                        holders_of(old(self).view(), symbol).insert(user_id),
                    )
                } else if old(self).view().holders.contains_key(symbol) {
                    old(self).view().holders.insert(
                        symbol,
                        old(self).view().holders[symbol].remove(user_id),
                    )
                } else {
                    old(self).view().holders
                },
                ..old(self).view()
            }),
    {
        broadcast use vstd::std_specs::hash::group_hash_axioms;

        let taken = holders_remove(&mut self.symbol_position_index, &symbol);
        if holds {
            let mut users = match taken {
                Some(users) => users,
                None => HashSet::new(),
            };
            users.insert(user_id);
            holders_insert(&mut self.symbol_position_index, symbol, users);
        } else if let Some(listed) = taken {
            let mut users = listed;
            users.remove(&user_id);
            holders_insert(&mut self.symbol_position_index, symbol, users);
        }
        proof {
            let h = old(self).view().holders;
            if holds {
                assert(self.view().holders =~= h.insert(
                    symbol,
                    holders_of(old(self).view(), symbol).insert(user_id),
                ));
            } else if h.contains_key(symbol) {
                assert(self.view().holders =~= h.insert(symbol, h[symbol].remove(user_id)));
            } else {
                assert(self.view().holders =~= h);
            }
        }
    }

    /// Books one fill. An opening fill moves its margin from order to used
    /// margin; a closing one sets used margin free and books the result; a
    /// forced close settles the user at the liquidation price and leaves the
    /// spread to the insurance fund.
    pub fn on_fill(
        &mut self,
        user_id: i64,
        symbol: Symbol,
        order_side: u8,
        fill_price_ticks: i64,
        fill_qty_lots: i64,
        fill_margin_atoms: i64,
        notional_scale: i64,
        leverage: u8,
        maintenance_rate_bps: i64,
        liq_price_ticks: i64,
    )
        requires
            old(self).wf(),
            fill_qty_lots > 0 ==> fill_fits(
                old(self).view(),
                (Fill {
                    user_id,
                    symbol,
                    order_side,
                    price_ticks: fill_price_ticks,
                    qty_lots: fill_qty_lots,
                    margin_atoms: fill_margin_atoms,
                    notional_scale,
                    leverage,
                    maintenance_rate_bps,
                    liq_price_ticks,
                }),
            ),
        ensures
            final(self).wf(),
            final(self).view() == (if fill_qty_lots > 0 {
                filled(
                    old(self).view(),
                    (Fill {
                        user_id,
                        symbol,
                        order_side,
                        price_ticks: fill_price_ticks,
                        qty_lots: fill_qty_lots,
                        margin_atoms: fill_margin_atoms,
                        notional_scale,
                        leverage,
                        maintenance_rate_bps,
                        liq_price_ticks,
                    }),
                )
            } else {
                old(self).view()
            }),
    {
        let f = Fill {
            user_id,
            symbol,
            order_side,
            price_ticks: fill_price_ticks,
            qty_lots: fill_qty_lots,
            margin_atoms: fill_margin_atoms,
            notional_scale,
            leverage,
            maintenance_rate_bps,
            liq_price_ticks,
        };
        let _booked = self.try_on_fill(&f);
    }

    /// The users that hold a symbol, each once.
    fn holders(&mut self, symbol: Symbol) -> (r: Vec<i64>)
        ensures
            final(self).view() == old(self).view(),
            r@.no_duplicates(),
            forall|u: i64|
                holders_of(old(self).view(), symbol).contains(u) <==> #[trigger] r@.contains(u),
    {
        match holders_remove(&mut self.symbol_position_index, &symbol) {
            Some(users) => {
                let list = members(&users);
                holders_insert(&mut self.symbol_position_index, symbol, users);
                proof {
                    assert(self.view().holders =~= old(self).view().holders);
                }
                list
            },
            None => {
                proof {
                    assert(self.view().holders =~= old(self).view().holders);
                }
                Vec::new()
            },
        }
    }

    /// The smoothed mark for a new price, or `None` where it leaves 64 bits.
    fn try_smooth(&self, symbol: &Symbol, price: i64) -> (r: Option<i64>)
        ensures
            r is Some <==> smoothed_fits(self.view(), *symbol, price),
            r is Some ==> r->0 == smoothed(self.view(), *symbol, price),
    {
        let old = match numbers_get(&self.mark_prices, symbol) {
            Some(v) => v,
            None => price,
        };
        let weighted = old.checked_mul(9)?;
        let sum = price.checked_add(weighted)?;
        sum.checked_div(10)
    }

    /// Values one position at a mark, or gives `None` where that leaves machine
    /// arithmetic. The account is given where there is one.
    fn try_mark_user(&self, user_id: i64, symbol: Symbol, mark: i64, scale: i64) -> (r: Option<
        (PositionRiskState, Option<AccountRiskState>),
    >)
        requires
            self.view().positions.contains_key((user_id, symbol)),
        ensures
            r is Some <==> user_mark_fits(self.view(), symbol, mark, scale, user_id),
            r is Some ==> {
                let pos = self.view().positions[(user_id, symbol)];
                let next = position_marked(pos, mark, scale);
                &&& (r->0).0 == next
                &&& (r->0).1 == (if self.view().accounts.contains_key(user_id) {
                    Some(
                        account_marked(
                            self.view().accounts[user_id],
                            pos.unrealized_pnl,
                            next.unrealized_pnl,
                        ),
                    )
                } else {
                    None
                })
            },
    {
        let pos = match positions_get(&self.positions, (user_id, symbol)) {
            Some(pos) => pos,
            None => {
                return None;
            },
        };
        let mut next = pos;
        next.mark_price_ticks = mark;
        if !crate::risk::calc::unrealized_pnl_in_range(
            next.side,
            next.qty_lots,
            next.entry_price_ticks,
            mark,
            scale,
        ) {
            return None;
        }
        crate::risk::position::refresh_unrealized_pnl(&mut next, scale);
        let moved = next.unrealized_pnl.checked_sub(pos.unrealized_pnl)?;
        match accounts_get(&self.accounts, user_id) {
            None => Some((next, None)),
            Some(acct) => {
                let mut changed = acct;
                changed.unrealized_pnl = acct.unrealized_pnl.checked_add(moved)?;
                let a = acct.available_margin.checked_add(acct.order_margin)?;
                let b = a.checked_add(acct.used_margin)?;
                changed.equity = b.checked_add(changed.unrealized_pnl)?;
                Some((next, Some(changed)))
            },
        }
    }

    /// Takes a new price for a symbol where every step stays within machine
    /// arithmetic; tells whether it did, and changes nothing otherwise. A price
    /// that is not positive is ignored.
    pub fn try_update_mark_price(
        &mut self,
        symbol: Symbol,
        new_price_ticks: i64,
        notional_scale: i64,
    ) -> (r: bool)
        requires
            old(self).wf(),
        ensures
            final(self).wf(),
            r == (new_price_ticks <= 0 || mark_fits(
                old(self).view(),
                symbol,
                new_price_ticks,
                notional_scale,
            )),
            final(self).view() == (if r && new_price_ticks > 0 {
                marked(old(self).view(), symbol, new_price_ticks, notional_scale)
            } else {
                old(self).view()
            }),
    {
        if new_price_ticks <= 0 {
            return true;
        }
        let mark = match self.try_smooth(&symbol, new_price_ticks) {
            Some(v) => v,
            None => {
                return false;
            },
        };
        let ghost v = self.view();
        let users = self.holders(symbol);
        proof {
            assert(holders_of(v, symbol).finite());
            assert forall|u: i64| #[trigger] users@.contains(u) <==> marked_user(v, symbol, u) by {
                assert(holders_of(v, symbol).contains(u) <==> v.positions.contains_key(
                    (u, symbol),
                ));
            }
        }
        let mut i: usize = 0;
        while i < users.len()
            invariant
                0 <= i <= users@.len(),
                self.view() == v,
                forall|u: i64| #[trigger] users@.contains(u) <==> marked_user(v, symbol, u),
                forall|j: int|
                    0 <= j < i ==> user_mark_fits(
                        v,
                        symbol,
                        mark,
                        notional_scale,
                        #[trigger] users@[j],
                    ),
                mark == smoothed(v, symbol, new_price_ticks),
                smoothed_fits(v, symbol, new_price_ticks),
                v == old(self).view(),
                v.consistent(),
                new_price_ticks > 0,
            decreases users@.len() - i,
        {
            let uid = users[i];
            proof {
                assert(users@.contains(uid));
                assert(marked_user(v, symbol, uid));
            }
            if self.try_mark_user(uid, symbol, mark, notional_scale).is_none() {
                return false;
            }
            i = i + 1;
        }
        numbers_insert(&mut self.mark_prices, symbol, mark);
        let ghost none = Set::<i64>::empty();
        proof {
            assert(users@.take(0).to_set() =~= none);
            assert(self.view().accounts =~= users_marked(
                v,
                symbol,
                mark,
                notional_scale,
                none,
            ).accounts);
            assert(self.view().positions =~= users_marked(
                v,
                symbol,
                mark,
                notional_scale,
                none,
            ).positions);
            assert(self.view() =~= users_marked(v, symbol, mark, notional_scale, none));
        }
        let mut i: usize = 0;
        while i < users.len()
            invariant
                0 <= i <= users@.len(),
                users@.no_duplicates(),
                forall|u: i64| #[trigger] users@.contains(u) <==> marked_user(v, symbol, u),
                forall|j: int|
                    0 <= j < users@.len() ==> user_mark_fits(
                        v,
                        symbol,
                        mark,
                        notional_scale,
                        #[trigger] users@[j],
                    ),
                self.view() == users_marked(
                    v,
                    symbol,
                    mark,
                    notional_scale,
                    users@.take(i as int).to_set(),
                ),
            decreases users@.len() - i,
        {
            let uid = users[i];
            let ghost done = users@.take(i as int).to_set();
            let ghost cur = self.view();
            proof {
                assert(users@.contains(uid));
                assert(marked_user(v, symbol, uid));
                assert(!done.contains(uid)) by {
                    if done.contains(uid) {
                        let t = users@.take(i as int);
                        let j = choose|j: int| 0 <= j < t.len() && t[j] == uid;
                        assert(users@[j] == users@[i as int]);
                    }
                }
                assert(cur.positions[(uid, symbol)] == v.positions[(uid, symbol)]);
                assert(user_mark_fits(v, symbol, mark, notional_scale, users@[i as int]));
            }
            if let Some((pos, account)) = self.try_mark_user(uid, symbol, mark, notional_scale) {
                positions_insert(&mut self.positions, (uid, symbol), pos);
                if let Some(acct) = account {
                    accounts_insert(&mut self.accounts, uid, acct);
                }
            }
            i = i + 1;
            proof {
                let next = users@.take(i as int).to_set();
                lemma_take_one_more(users@, i - 1);
                let goal = users_marked(v, symbol, mark, notional_scale, next);
                assert(self.view().positions =~= goal.positions);
                assert(self.view().accounts =~= goal.accounts);
                assert(self.view() =~= goal);
            }
        }
        proof {
            let all = users@.take(i as int).to_set();
            assert(users@.take(i as int) =~= users@);
            assert(all =~= holders_of(v, symbol)) by {
                assert forall|u: i64| all.contains(u) <==> holders_of(v, symbol).contains(u) by {
                    assert(users@.contains(u) <==> marked_user(v, symbol, u));
                    assert(holders_of(v, symbol).contains(u) <==> v.positions.contains_key(
                        (u, symbol),
                    ));
                }
            }
            assert forall|u: i64| #[trigger] marked_user(v, symbol, u) implies user_mark_fits(
                v,
                symbol,
                mark,
                notional_scale,
                u,
            ) by {
                assert(users@.contains(u));
                let j = choose|j: int| 0 <= j < users@.len() && users@[j] == u;
                assert(user_mark_fits(v, symbol, mark, notional_scale, users@[j]));
            }
            law_mark_keeps_book_consistent(v, symbol, new_price_ticks, notional_scale);
        }
        true
    }

    /// Takes a new price for a symbol: smooths the mark and values every
    /// position in the symbol at it. A price that is not positive is ignored.
    pub fn update_mark_price(&mut self, symbol: Symbol, new_price_ticks: i64, notional_scale: i64)
        requires
            old(self).wf(),
            new_price_ticks > 0 ==> mark_fits(
                old(self).view(),
                symbol,
                new_price_ticks,
                notional_scale,
            ),
        ensures
            final(self).wf(),
            final(self).view() == (if new_price_ticks > 0 {
                marked(old(self).view(), symbol, new_price_ticks, notional_scale)
            } else {
                old(self).view()
            }),
    {
        let _marked = self.try_update_mark_price(symbol, new_price_ticks, notional_scale);
    }
}

proof fn lemma_take_one_more(s: Seq<i64>, i: int)
    requires
        0 <= i < s.len(),
    ensures
        s.take(i + 1).to_set() == s.take(i).to_set().insert(s[i]),
{
    let a = s.take(i);
    let b = s.take(i + 1);
    assert forall|u: i64| b.to_set().contains(u) <==> a.to_set().insert(s[i]).contains(u) by {
        if b.contains(u) {
            let j = choose|j: int| 0 <= j < b.len() && b[j] == u;
            if j < i {
                assert(a[j] == u);
            }
        }
        if a.contains(u) {
            let j = choose|j: int| 0 <= j < a.len() && a[j] == u;
            assert(b[j] == u);
        }
        assert(b[i] == s[i]);
    }
    assert(b.to_set() =~= a.to_set().insert(s[i]));
}

/// Marking a symbol moves no lots and no holders.
pub proof fn law_mark_keeps_book_consistent(v: RiskView, symbol: Symbol, price: i64, scale: i64)
    requires
        v.consistent(),
    ensures
        marked(v, symbol, price, scale).consistent(),
{
    let w = marked(v, symbol, price, scale);
    assert(w.accounts.dom() =~= v.accounts.dom());
    assert forall|u: i64| #[trigger] w.accounts.contains_key(u) implies w.accounts[u].user_id
        == u by {
        assert(v.accounts.contains_key(u));
    }
    assert forall|k: (i64, Symbol)| #[trigger] w.positions.contains_key(k) implies {
        let pos = w.positions[k];
        &&& pos.user_id == k.0
        &&& pos.symbol == k.1
        &&& pos.qty_lots > 0
    } by {
        assert(v.positions.contains_key(k));
    }
    assert forall|s: Symbol, u: i64|
        holders_of(w, s).contains(u) <==> w.positions.contains_key((u, s)) by {
        assert(holders_of(v, s).contains(u) <==> v.positions.contains_key((u, s)));
    }
    assert forall|s: Symbol| (#[trigger] holders_of(w, s)).finite() by {
        assert(holders_of(v, s).finite());
    }
    assert forall|s: Symbol|
        same_word(
            #[trigger] entry_or_zero(w.open_interest, s) as int,
            total_lots(w, s, holders_of(w, s)),
        ) by {
        assert(same_word(
            entry_or_zero(v.open_interest, s) as int,
            total_lots(v, s, holders_of(v, s)),
        ));
        assert(holders_of(v, s).finite());
        lemma_total_lots_by_count(v, w, s, holders_of(v, s));
    }
}

proof fn lemma_total_lots_by_count(a: RiskView, b: RiskView, symbol: Symbol, users: Set<i64>)
    requires
        users.finite(),
        forall|u: i64| #[trigger]
            users.contains(u) ==> lots_of(entry(a.positions, (u, symbol))) == lots_of(
                entry(b.positions, (u, symbol)),
            ),
    ensures
        total_lots(a, symbol, users) == total_lots(b, symbol, users),
    decreases users.len(),
{
    if users.len() > 0 {
        let c = users.choose();
        assert(users.contains(c));
        lemma_total_lots_by_count(a, b, symbol, users.remove(c));
    }
}

fn assess(acct: &AccountRiskState) -> (r: RiskStatus)
    ensures
        r == assessed(*acct),
{
    if acct.used_margin == 0 {
        RiskStatus::Normal
    } else if acct.equity <= 0 {
        RiskStatus::Bankruptcy
    } else if acct.equity <= acct.maintenance_margin {
        RiskStatus::LiquidationPending
    } else if acct.equity as i128 * 2 < 3 * acct.maintenance_margin as i128 {
        RiskStatus::MarginCall
    } else {
        RiskStatus::Normal
    }
}

fn may_assess(acct: &AccountRiskState) -> (r: bool)
    ensures
        r == assessable(*acct),
{
    match acct.status {
        RiskStatus::Liquidating => false,
        RiskStatus::Liquidated => false,
        RiskStatus::Bankruptcy => false,
        _ => true,
    }
}

/// `decided` holds the assessment of some accounts with exposure.
spec fn decisions_hold(v: RiskView, decided: Seq<(i64, RiskStatus)>) -> bool {
    forall|d: int|
        0 <= d < decided.len() ==> {
            let u = (#[trigger] decided[d]).0;
            &&& v.accounts.contains_key(u)
            &&& exposed(v, u)
            &&& assessable(v.accounts[u])
            &&& decided[d].1 == assessed(v.accounts[u])
        }
}

spec fn decided_on(decided: Seq<(i64, RiskStatus)>, n: int, u: i64) -> bool {
    exists|d: int| 0 <= d < n && (#[trigger] decided[d]).0 == u
}

impl RiskEngine {
    /// Assesses every account with an open position and lists the positions
    /// of those that fell to their maintenance margin since the last tick.
    pub fn run_risk_tick(&mut self) -> (r: Vec<LiquidationEvent>)
        requires
            old(self).wf(),
        ensures
            final(self).wf(),
            final(self).view() == ticked(old(self).view()),
            liquidates(old(self).view(), r@),
    {
        broadcast use vstd::std_specs::hash::group_hash_axioms;

        let ghost v = self.view();
        let entries = positions_list(&self.positions);
        let mut seen: HashSet<i64> = HashSet::new();
        let mut pending: HashSet<i64> = HashSet::new();
        let mut decided: Vec<(i64, RiskStatus)> = Vec::new();
        let mut i: usize = 0;
        while i < entries.len()
            invariant
                0 <= i <= entries@.len(),
                self.view() == v,
                forall|j: int|
                    0 <= j < entries@.len() ==> v.positions.contains_key((#[trigger] entries@[j]).0),
                forall|u: i64| #[trigger]
                    seen@.contains(u) ==> exists|j: int| 0 <= j < i && (#[trigger] entries@[j]).0.0 == u,
                forall|j: int| 0 <= j < i ==> seen@.contains((#[trigger] entries@[j]).0.0),
                decisions_hold(v, decided@),
                forall|u: i64| #[trigger]
                    seen@.contains(u) && v.accounts.contains_key(u) && assessable(v.accounts[u])
                        ==> decided_on(decided@, decided@.len() as int, u),
                forall|u: i64| #[trigger]
                    pending@.contains(u) <==> seen@.contains(u) && newly_pending(v, u),
            decreases entries@.len() - i,
        {
            broadcast use vstd::std_specs::hash::group_hash_axioms;

            let uid = entries[i].0.0;
            let ghost seen_before = seen@;
            let ghost decided_before = decided@;
            proof {
                assert(v.positions.contains_key(entries@[i as int].0));
                assert(entries@[i as int].0 == (uid, entries@[i as int].0.1));
                assert(exposed(v, uid));
            }
            if !seen.contains(&uid) {
                seen.insert(uid);
                if let Some(acct) = accounts_get(&self.accounts, uid) {
                    if may_assess(&acct) {
                        let status = assess(&acct);
                        if status == RiskStatus::LiquidationPending && acct.status
                            != RiskStatus::LiquidationPending {
                            pending.insert(uid);
                        }
                        decided.push((uid, status));
                        proof {
                            assert(decided@[decided@.len() - 1].0 == uid);
                        }
                    }
                }
            }
            proof {
                assert forall|u: i64| #[trigger]
                    seen@.contains(u) && v.accounts.contains_key(u) && assessable(
                        v.accounts[u],
                    ) implies decided_on(decided@, decided@.len() as int, u) by {
                    if seen_before.contains(u) {
                        let d = choose|d: int|
                            0 <= d < decided_before.len() && (#[trigger] decided_before[d]).0 == u;
                        assert(decided@[d].0 == u);
                    }
                }
            }
            i = i + 1;
        }
        proof {
            assert forall|u: i64| exposed(v, u) <==> #[trigger] seen@.contains(u) by {
                if exposed(v, u) {
                    let s = choose|s: Symbol| v.positions.contains_key((u, s));
                    let j = choose|j: int| 0 <= j < entries@.len() && (#[trigger] entries@[j]).0 == (u, s);
                    assert(seen@.contains(entries@[j].0.0));
                }
                if seen@.contains(u) {
                    let j = choose|j: int| 0 <= j < i && (#[trigger] entries@[j]).0.0 == u;
                    assert(v.positions.contains_key(entries@[j].0));
                    assert(entries@[j].0 == (u, entries@[j].0.1));
                }
            }
        }
        let events = self.pending_events(&entries, &pending);
        let mut d: usize = 0;
        while d < decided.len()
            invariant
                0 <= d <= decided@.len(),
                decisions_hold(v, decided@),
                self.view().positions == v.positions,
                self.view().marks == v.marks,
                self.view().holders == v.holders,
                self.view().open_interest == v.open_interest,
                self.view().fund == v.fund,
                self.view().accounts.dom() == v.accounts.dom(),
                forall|u: i64| #[trigger]
                    v.accounts.contains_key(u) ==> self.view().accounts[u] == (if decided_on(
                        decided@,
                        d as int,
                        u,
                    ) {
                        AccountRiskState { status: assessed(v.accounts[u]), ..v.accounts[u] }
                    } else {
                        v.accounts[u]
                    }),
            decreases decided@.len() - d,
        {
            let (uid, status) = decided[d];
            let ghost before = self.view();
            proof {
                assert(decided@[d as int].0 == uid);
                assert(v.accounts.contains_key(uid));
                assert(before.accounts.contains_key(uid));
            }
            if let Some(acct) = accounts_get(&self.accounts, uid) {
                let mut next = acct;
                next.status = status;
                accounts_insert(&mut self.accounts, uid, next);
            }
            proof {
                assert(self.view().accounts.dom() =~= v.accounts.dom());
                assert forall|u: i64| #[trigger] v.accounts.contains_key(u) implies
                    self.view().accounts[u] == (if decided_on(decided@, d + 1, u) {
                    AccountRiskState { status: assessed(v.accounts[u]), ..v.accounts[u] }
                } else {
                    v.accounts[u]
                }) by {
                    if u == uid {
                        assert(decided_on(decided@, d + 1, u));
                    } else {
                        if decided_on(decided@, d + 1, u) {
                            let e = choose|e: int|
                                0 <= e < d + 1 && (#[trigger] decided@[e]).0 == u;
                            assert(e != d);
                            assert(decided_on(decided@, d as int, u));
                        }
                        if decided_on(decided@, d as int, u) {
                            let e = choose|e: int|
                                0 <= e < d && (#[trigger] decided@[e]).0 == u;
                            assert(decided_on(decided@, d + 1, u));
                        }
                    }
                }
            }
            d = d + 1;
        }
        proof {
            let goal = ticked(v);
            assert forall|u: i64| #[trigger] v.accounts.contains_key(u) implies
                self.view().accounts[u] == goal.accounts[u] by {
                if decided_on(decided@, d as int, u) {
                    let e = choose|e: int| 0 <= e < d && (#[trigger] decided@[e]).0 == u;
                    assert(exposed(v, u) && assessable(v.accounts[u]));
                } else if exposed(v, u) && assessable(v.accounts[u]) {
                    assert(seen@.contains(u));
                }
            }
            assert(self.view().accounts =~= goal.accounts);
            assert(self.view() =~= goal);
            assert(goal.accounts.dom() =~= v.accounts.dom());
            assert forall|u: i64| #[trigger] goal.accounts.contains_key(u) implies
                goal.accounts[u].user_id == u by {
                assert(v.accounts.contains_key(u));
            }
            lemma_accounts_do_not_matter(v, goal);
            assert(liquidates(v, events@)) by {
                assert forall|k: (i64, Symbol)| #[trigger]
                    v.positions.contains_key(k) && newly_pending(v, k.0) implies exists|i: int|
                    0 <= i < events@.len() && (#[trigger] events@[i]).user_id == k.0
                        && events@[i].symbol == k.1 by {
                    let j = choose|j: int| 0 <= j < entries@.len() && (#[trigger] entries@[j]).0 == k;
                    assert(seen@.contains(entries@[j].0.0));
                    assert(pending@.contains(entries@[j].0.0));
                }
            }
        }
        events
    }

    /// The positions among `entries` whose user is in `pending`.
    fn pending_events(
        &self,
        entries: &Vec<((i64, Symbol), PositionRiskState)>,
        pending: &HashSet<i64>,
    ) -> (r: Vec<LiquidationEvent>)
        requires
            forall|i: int|
                0 <= i < entries@.len() ==> self.view().positions.contains_key(
                    (#[trigger] entries@[i]).0,
                ) && self.view().positions[entries@[i].0] == entries@[i].1,
            forall|i: int, j: int| 0 <= i < j < entries@.len() ==> entries@[i].0 != entries@[j].0,
        ensures
            forall|i: int|
                0 <= i < r@.len() ==> {
                    let k = ((#[trigger] r@[i]).user_id, r@[i].symbol);
                    &&& self.view().positions.contains_key(k)
                    &&& pending@.contains(k.0)
                    &&& r@[i] == liquidation_of(self.view().positions[k], k)
                },
            forall|j: int|
                0 <= j < entries@.len() && pending@.contains((#[trigger] entries@[j]).0.0)
                    ==> exists|i: int|
                    0 <= i < r@.len() && (#[trigger] r@[i]).user_id == entries@[j].0.0
                        && r@[i].symbol == entries@[j].0.1,
            forall|i: int, j: int|
                0 <= i < j < r@.len() ==> (r@[i].user_id, r@[i].symbol) != (
                    r@[j].user_id,
                    r@[j].symbol,
                ),
    {
        broadcast use vstd::std_specs::hash::group_hash_axioms;

        let mut events: Vec<LiquidationEvent> = Vec::new();
        let ghost mut sources: Seq<int> = seq![];
        let mut i: usize = 0;
        while i < entries.len()
            invariant
                0 <= i <= entries@.len(),
                sources.len() == events@.len(),
                forall|e: int|
                    0 <= e < events@.len() ==> {
                        &&& 0 <= #[trigger] sources[e] < i
                        &&& pending@.contains(entries@[sources[e]].0.0)
                        &&& events@[e] == liquidation_of(
                            entries@[sources[e]].1,
                            entries@[sources[e]].0,
                        )
                    },
                forall|a: int, b: int|
                    0 <= a < b < sources.len() ==> #[trigger] sources[a] < #[trigger] sources[b],
                forall|j: int|
                    0 <= j < i && pending@.contains((#[trigger] entries@[j]).0.0) ==> exists|e: int|
                        0 <= e < events@.len() && (#[trigger] events@[e]).user_id
                            == entries@[j].0.0 && events@[e].symbol == entries@[j].0.1,
            decreases entries@.len() - i,
        {
            broadcast use vstd::std_specs::hash::group_hash_axioms;

            let (key, pos) = entries[i];
            let ghost before = events@;
            if pending.contains(&key.0) {
                events.push(
                    LiquidationEvent {
                        user_id: key.0,
                        symbol: key.1,
                        side: pos.side,
                        qty_lots: pos.qty_lots,
                        liq_price_ticks: pos.liquidation_price_ticks,
                    },
                );
                proof {
                    sources = sources.push(i as int);
                    assert(events@[events@.len() - 1].user_id == entries@[i as int].0.0);
                }
            }
            proof {
                assert forall|j: int|
                    0 <= j < i + 1 && pending@.contains((#[trigger] entries@[j]).0.0) implies exists|
                    e: int,
                |
                    0 <= e < events@.len() && (#[trigger] events@[e]).user_id == entries@[j].0.0
                        && events@[e].symbol == entries@[j].0.1 by {
                    if j < i {
                        let e = choose|e: int|
                            0 <= e < before.len() && (#[trigger] before[e]).user_id
                                == entries@[j].0.0 && before[e].symbol == entries@[j].0.1;
                        assert(events@[e] == before[e]);
                    } else {
                        assert(events@[events@.len() - 1].symbol == entries@[j].0.1);
                    }
                }
            }
            i = i + 1;
        }
        proof {
            assert forall|a: int, b: int| 0 <= a < b < events@.len() implies (
                events@[a].user_id,
                events@[a].symbol,
            ) != (events@[b].user_id, events@[b].symbol) by {
                assert(sources[a] < sources[b]);
                assert(entries@[sources[a]].0 != entries@[sources[b]].0);
            }
            assert forall|e: int| 0 <= e < events@.len() implies {
                let k = ((#[trigger] events@[e]).user_id, events@[e].symbol);
                &&& self.view().positions.contains_key(k)
                &&& pending@.contains(k.0)
                &&& events@[e] == liquidation_of(self.view().positions[k], k)
            } by {
                assert(0 <= sources[e] < i);
                let k = (events@[e].user_id, events@[e].symbol);
                assert(k == entries@[sources[e]].0);
            }
        }
        events
    }
}

/// A tick right after a tick finds nothing new to liquidate: no position is
/// sent to liquidation twice for the same fall.
pub proof fn law_second_tick_is_silent(v: RiskView, user_id: i64)
    ensures
        !newly_pending(ticked(v), user_id),
{
    let w = ticked(v);
    if newly_pending(w, user_id) {
        assert(v.accounts.contains_key(user_id));
        let s = choose|s: Symbol| w.positions.contains_key((user_id, s));
        assert(v.positions.contains_key((user_id, s)));
        assert(exposed(v, user_id));
        assert(w.accounts[user_id] == account_ticked(v, user_id));
    }
}

/// Accounts without positions, and accounts already being liquidated, are
/// left alone by the tick; no tick changes a figure of any account.
pub proof fn law_tick_changes_only_status(v: RiskView, user_id: i64)
    requires
        v.accounts.contains_key(user_id),
    ensures
        ticked(v).accounts[user_id] == (AccountRiskState {
            status: ticked(v).accounts[user_id].status,
            ..v.accounts[user_id]
        }),
        !exposed(v, user_id) || !assessable(v.accounts[user_id]) ==> ticked(v).accounts[user_id]
            == v.accounts[user_id],
{
}

/// Booking a fill and marking a symbol both leave the account balanced: equity
/// is what the margin buckets and the open result add up to.
pub proof fn law_booking_balances_equity(
    acct: AccountRiskState,
    f: Fill,
    position: Option<PositionRiskState>,
    update: PositionUpdate,
    before: i64,
    after: i64,
)
    ensures
        account_filled_fits(acct, f, position, update) ==> account_filled(
            acct,
            f,
            position,
            update,
        ).balanced(),
        account_marked_fits(acct, before, after) ==> account_marked(
            acct,
            before,
            after,
        ).balanced(),
{
}

/// Where the lots held of a symbol fit in 64 bits, the open interest of a
/// consistent book is exactly their sum, and it is not negative.
pub proof fn law_open_interest_adds_up(v: RiskView, symbol: Symbol)
    requires
        v.consistent(),
        money::fits_i64(total_lots(v, symbol, holders_of(v, symbol))),
    ensures
        entry_or_zero(v.open_interest, symbol) == total_lots(v, symbol, holders_of(v, symbol)),
        entry_or_zero(v.open_interest, symbol) >= 0,
{
    let t = total_lots(v, symbol, holders_of(v, symbol));
    assert(same_word(entry_or_zero(v.open_interest, symbol) as int, t));
    assert(holders_of(v, symbol).finite());
    lemma_total_lots_nonnegative(v, symbol, holders_of(v, symbol));
}

proof fn lemma_total_lots_nonnegative(v: RiskView, symbol: Symbol, users: Set<i64>)
    requires
        v.consistent(),
        users.finite(),
    ensures
        total_lots(v, symbol, users) >= 0,
    decreases users.len(),
{
    if users.len() > 0 {
        let c = users.choose();
        assert(users.contains(c));
        if v.positions.contains_key((c, symbol)) {
            assert(v.positions[(c, symbol)].qty_lots > 0);
        }
        lemma_total_lots_nonnegative(v, symbol, users.remove(c));
    }
}

/// The equity of the accounts of `users`, added up.
pub open spec fn total_equity(accounts: Map<i64, AccountRiskState>, users: Set<i64>) -> int
    decreases users.len(),
{
    if users.finite() && users.len() > 0 {
        let u = users.choose();
        accounts[u].equity + total_equity(accounts, users.remove(u))
    } else {
        0
    }
}

/// The engine after realised cash moved in or out of one account.
pub open spec fn cash_moved(v: RiskView, user_id: i64, delta: i64) -> RiskView {
    let acct = v.accounts[user_id];
    if v.accounts.contains_key(user_id) {
        RiskView {
            accounts: v.accounts.insert(
                user_id,
                AccountRiskState {
                    equity: (acct.equity + delta) as i64,
                    available_margin: wrap_sum(acct.available_margin, delta),
                    ..acct
                },
            ),
            ..v
        }
    } else {
        v
    }
}

proof fn lemma_total_equity_split(accounts: Map<i64, AccountRiskState>, users: Set<i64>, u: i64)
    requires
        users.finite(),
        users.contains(u),
    ensures
        total_equity(accounts, users) == accounts[u].equity + total_equity(
            accounts,
            users.remove(u),
        ),
    decreases users.len(),
{
    let c = users.choose();
    assert(users.len() > 0) by {
        if users.len() == 0 {
            users.lemma_len0_is_empty();
        }
    }
    assert(users.contains(c));
    if c != u {
        lemma_total_equity_split(accounts, users.remove(c), u);
        lemma_total_equity_split(accounts, users.remove(u), c);
        assert(users.remove(c).remove(u) =~= users.remove(u).remove(c));
    }
}

proof fn lemma_total_equity_same(
    a: Map<i64, AccountRiskState>,
    b: Map<i64, AccountRiskState>,
    users: Set<i64>,
)
    requires
        users.finite(),
        forall|u: i64| #[trigger] users.contains(u) ==> a[u].equity == b[u].equity,
    ensures
        total_equity(a, users) == total_equity(b, users),
    decreases users.len(),
{
    if users.len() > 0 {
        let c = users.choose();
        assert(users.contains(c));
        lemma_total_equity_same(a, b, users.remove(c));
    }
}

/// Cash that moves into an account raises total equity by exactly that much.
pub proof fn law_cash_moves_total_equity(v: RiskView, user_id: i64, delta: i64)
    requires
        v.consistent(),
        v.accounts.contains_key(user_id),
        money::fits_i64(v.accounts[user_id].equity + delta),
    ensures
        total_equity(cash_moved(v, user_id, delta).accounts, v.accounts.dom()) == total_equity(
            v.accounts,
            v.accounts.dom(),
        ) + delta,
        cash_moved(v, user_id, delta).accounts.dom() == v.accounts.dom(),
        cash_moved(v, user_id, delta).consistent(),
{
    let w = cash_moved(v, user_id, delta);
    let d = v.accounts.dom();
    assert(w.accounts.dom() =~= d);
    lemma_total_equity_split(v.accounts, d, user_id);
    lemma_total_equity_split(w.accounts, d, user_id);
    lemma_total_equity_same(v.accounts, w.accounts, d.remove(user_id));
    lemma_accounts_do_not_matter(v, w);
}

impl RiskEngine {
    /// Moves realised cash in or out of an account, where there is one: equity
    /// and available margin move together.
    pub fn move_cash(&mut self, user_id: i64, delta_atoms: i64)
        requires
            old(self).wf(),
            old(self).view().accounts.contains_key(user_id) ==> money::fits_i64(
                old(self).view().accounts[user_id].equity + delta_atoms,
            ),
        ensures
            final(self).wf(),
            final(self).view() == cash_moved(old(self).view(), user_id, delta_atoms),
    {
        if let Some(acct) = accounts_get(&self.accounts, user_id) {
            let mut next = acct;
            next.equity = acct.equity + delta_atoms;
            next.available_margin = acct.available_margin.wrapping_add(delta_atoms);
            accounts_insert(&mut self.accounts, user_id, next);
            proof {
                lemma_accounts_do_not_matter(old(self).view(), self.view());
            }
        }
    }

    /// Pays into the insurance fund, or takes out of it; the counter wraps.
    pub fn add_to_fund(&mut self, amount_atoms: i64)
        requires
            old(self).wf(),
        ensures
            final(self).wf(),
            final(self).view() == (RiskView {
                fund: wrap_sum(old(self).view().fund, amount_atoms),
                ..old(self).view()
            }),
    {
        self.insurance_fund_atoms = self.insurance_fund_atoms.wrapping_add(amount_atoms);
        proof {
            lemma_accounts_do_not_matter(old(self).view(), self.view());
        }
    }
}

/// What a request for margin is answered.
pub open spec fn reservation(v: RiskView, user_id: i64, margin: i64) -> Result<i64, MarginError> {
    if !v.accounts.contains_key(user_id) {
        Err(MarginError::AccountNotFound)
    } else if !v.accounts[user_id].may_trade() {
        Err(MarginError::AccountInLiquidation)
    } else if v.accounts[user_id].available_margin < margin {
        Err(MarginError::InsufficientMargin)
    } else {
        Ok(margin)
    }
}

/// The engine after margin was moved from available to order margin.
pub open spec fn reserved(v: RiskView, user_id: i64, margin: i64) -> RiskView {
    let acct = v.accounts[user_id];
    RiskView {
        accounts: v.accounts.insert(
            user_id,
            AccountRiskState {
                available_margin: (acct.available_margin - margin) as i64,
                order_margin: wrap_sum(acct.order_margin, margin),
                ..acct
            },
        ),
        ..v
    }
}

/// The engine after margin was moved back from order to available margin.
pub open spec fn released(v: RiskView, user_id: i64, margin: i64) -> RiskView {
    let acct = v.accounts[user_id];
    if v.accounts.contains_key(user_id) {
        RiskView {
            accounts: v.accounts.insert(
                user_id,
                AccountRiskState {
                    available_margin: wrap_sum(acct.available_margin, margin),
                    order_margin: wrap_difference(acct.order_margin, margin),
                    ..acct
                },
            ),
            ..v
        }
    } else {
        v
    }
}

/// Releasing a granted reservation restores the engine exactly.
pub proof fn law_release_undoes_reserve(v: RiskView, user_id: i64, margin: i64)
    requires
        reservation(v, user_id, margin) is Ok,
        money::fits_i64(v.accounts[user_id].available_margin - margin),
    ensures
        released(reserved(v, user_id, margin), user_id, margin) == v,
{
    let back = released(reserved(v, user_id, margin), user_id, margin);
    assert(back.accounts[user_id] == v.accounts[user_id]);
    assert(back.accounts =~= v.accounts);
    assert(back =~= v);
}

/// A reservation never touches equity, and keeps it balanced while the order
/// margin stays within 64 bits. Two requests that together exceed the
/// available margin cannot both be granted.
pub proof fn law_reserve_never_overspends(v: RiskView, user_id: i64, first: i64, second: i64)
    requires
        reservation(v, user_id, first) is Ok,
        money::fits_i64(v.accounts[user_id].available_margin - first),
    ensures
        reserved(v, user_id, first).accounts[user_id].equity == v.accounts[user_id].equity,
        v.accounts[user_id].balanced() && money::fits_i64(
            v.accounts[user_id].order_margin + first,
        ) ==> reserved(v, user_id, first).accounts[user_id].balanced(),
        first + second > v.accounts[user_id].available_margin ==> reservation(
            reserved(v, user_id, first),
            user_id,
            second,
        ) == Err::<i64, MarginError>(MarginError::InsufficientMargin),
{
}

/// Consistency of the book does not depend on the figures of the accounts, the
/// marks or the fund.
proof fn lemma_accounts_do_not_matter(a: RiskView, b: RiskView)
    requires
        a.consistent(),
        a.positions == b.positions,
        a.holders == b.holders,
        a.open_interest == b.open_interest,
        b.accounts.dom().finite(),
        forall|u: i64| #[trigger] b.accounts.contains_key(u) ==> b.accounts[u].user_id == u,
    ensures
        b.consistent(),
{
    assert forall|s: Symbol, u: i64|
        holders_of(b, s).contains(u) <==> b.positions.contains_key((u, s)) by {
        assert(holders_of(a, s).contains(u) <==> a.positions.contains_key((u, s)));
    }
    assert forall|s: Symbol| (#[trigger] holders_of(b, s)).finite() by {
        assert(holders_of(a, s).finite());
    }
    assert forall|s: Symbol|
        same_word(
            #[trigger] entry_or_zero(b.open_interest, s) as int,
            total_lots(b, s, holders_of(b, s)),
        ) by {
        assert(same_word(
            entry_or_zero(a.open_interest, s) as int,
            total_lots(a, s, holders_of(a, s)),
        ));
        assert(holders_of(a, s).finite());
        lemma_total_lots_same(a, b, s, holders_of(a, s));
    }
}

} // verus!
