//! What a fill does to one position.
use super::types::{PositionRiskState, PositionSide};
use crate::maps::Symbol;
use crate::money;
use crate::money::divide;
use vstd::prelude::*;

verus! {

/// One fill of an order, as the risk engine books it.
#[derive(Debug, Clone, Copy, PartialEq, Eq)]
pub struct Fill {
    pub user_id: i64,
    pub symbol: Symbol,
    /// 0 for a buy, anything else for a sell.
    pub order_side: u8,
    pub price_ticks: i64,
    pub qty_lots: i64,
    /// The part of the order's initial margin that belongs to this fill.
    pub margin_atoms: i64,
    pub notional_scale: i64,
    pub leverage: u8,
    pub maintenance_rate_bps: i64,
    /// Not zero for a forced close: the price at which the user is settled.
    pub liq_price_ticks: i64,
}

impl Fill {
    pub open spec fn side(self) -> PositionSide {
        if self.order_side == 0 {
            PositionSide::Long
        } else {
            PositionSide::Short
        }
    }

    /// The price at which the user is settled.
    pub open spec fn settlement_price(self) -> i64 {
        if self.liq_price_ticks != 0 {
            self.liq_price_ticks
        } else {
            self.price_ticks
        }
    }

    pub open spec fn key(self) -> (i64, Symbol) {
        (self.user_id, self.symbol)
    }
}

/// What becomes of a position: its next state, the margin set free and the
/// result realised.
pub struct PositionUpdate {
    pub position: Option<PositionRiskState>,
    pub released_margin: i64,
    pub realized_pnl: i64,
}

/// Whether `a / b` can be taken in 64-bit arithmetic.
pub open spec fn share_fits(a: int, b: int) -> bool {
    b != 0 && money::fits_i64(a) && money::fits_i64(money::trunc_div(a, b))
}

/// A position of `qty` lots opened at `price` by `side`.
pub open spec fn opened(
    user_id: i64,
    symbol: Symbol,
    side: PositionSide,
    price: i64,
    qty: i64,
    margin: i64,
    scale: i64,
    leverage: u8,
    rate_bps: i64,
) -> PositionRiskState {
    PositionRiskState {
        user_id,
        symbol,
        side,
        qty_lots: qty,
        entry_price_ticks: price,
        mark_price_ticks: price,
        unrealized_pnl: 0,
        initial_margin: margin,
        maintenance_margin: maintenance(price, qty, scale, rate_bps),
        liquidation_price_ticks: crate::risk::calc::liquidation_price(
            price as int,
            leverage as int,
            rate_bps as int,
            side,
        ) as i64,
        bankruptcy_price_ticks: crate::risk::calc::bankruptcy_price(price as int, leverage as int, side) as i64,
        leverage,
    }
}

pub open spec fn maintenance(price: i64, qty: i64, scale: i64, rate_bps: i64) -> i64 {
    crate::risk::calc::bps_of(
        crate::risk::calc::notional(price as int, qty as int, scale as int) as i64 as int,
        rate_bps as int,
    ) as i64
}

/// `pos` with the figures that follow from its entry and size worked out anew.
pub open spec fn refreshed(pos: PositionRiskState, scale: i64, rate_bps: i64) -> PositionRiskState {
    PositionRiskState {
        maintenance_margin: maintenance(pos.entry_price_ticks, pos.qty_lots, scale, rate_bps),
        liquidation_price_ticks: crate::risk::calc::liquidation_price(
            pos.entry_price_ticks as int,
            pos.leverage as int,
            rate_bps as int,
            pos.side,
        ) as i64,
        bankruptcy_price_ticks: crate::risk::calc::bankruptcy_price(
            pos.entry_price_ticks as int,
            pos.leverage as int,
            pos.side,
        ) as i64,
        ..pos
    }
}

pub open spec fn refresh_fits(pos: PositionRiskState, scale: i64) -> bool {
    &&& pos.leverage > 0
    &&& crate::risk::calc::notional_fits(pos.entry_price_ticks as int, pos.qty_lots as int, scale as int)
}

/// `pos` with its open result worked out at its mark.
pub open spec fn revalued(pos: PositionRiskState, scale: i64) -> PositionRiskState {
    PositionRiskState {
        unrealized_pnl: crate::risk::calc::open_result(
            pos.side,
            pos.qty_lots as int,
            pos.entry_price_ticks as int,
            pos.mark_price_ticks as int,
            scale as int,
        ) as i64,
        ..pos
    }
}

pub open spec fn revalue_fits(pos: PositionRiskState, scale: i64) -> bool {
    crate::risk::calc::open_result_fits(
        pos.side,
        pos.qty_lots as int,
        pos.entry_price_ticks as int,
        pos.mark_price_ticks as int,
        scale as int,
    )
}

/// The average entry after `qty` more lots at `price`.
pub open spec fn average_entry(pos: PositionRiskState, price: i64, qty: i64) -> int {
    money::trunc_div(
        pos.entry_price_ticks * pos.qty_lots + price * qty,
        pos.qty_lots + qty,
    )
}

/// `pos` grown by the fill, before its figures are worked out.
pub open spec fn grown(pos: PositionRiskState, price: i64, f: Fill) -> PositionRiskState {
    PositionRiskState {
        mark_price_ticks: price,
        entry_price_ticks: average_entry(pos, price, f.qty_lots) as i64,
        qty_lots: (pos.qty_lots + f.qty_lots) as i64,
        initial_margin: (pos.initial_margin + f.margin_atoms) as i64,
        ..pos
    }
}

/// The result realised by closing `qty` lots at `price`.
pub open spec fn realized(pos: PositionRiskState, price: i64, qty: i64, scale: i64) -> i64 {
    crate::risk::calc::open_result(
        pos.side,
        qty as int,
        pos.entry_price_ticks as int,
        price as int,
        scale as int,
    ) as i64
}

pub open spec fn realized_fits(pos: PositionRiskState, price: i64, qty: i64, scale: i64) -> bool {
    &&& money::fits_i64(price - pos.entry_price_ticks)
    &&& crate::risk::calc::notional_fits(
        crate::risk::calc::favourable_move(pos.side, pos.entry_price_ticks as int, price as int),
        qty as int,
        scale as int,
    )
}

/// The margin that a partial close sets free.
pub open spec fn released_share(pos: PositionRiskState, qty: i64) -> int {
    money::trunc_div(pos.initial_margin * qty, pos.qty_lots as int)
}

/// `pos` reduced by the fill, before its figures are worked out.
pub open spec fn shrunk(pos: PositionRiskState, price: i64, f: Fill) -> PositionRiskState {
    PositionRiskState {
        mark_price_ticks: price,
        qty_lots: (pos.qty_lots - f.qty_lots) as i64,
        initial_margin: (pos.initial_margin - released_share(pos, f.qty_lots)) as i64,
        ..pos
    }
}

/// The part of the fill's margin that backs the lots beyond the close.
pub open spec fn flip_share(pos: PositionRiskState, f: Fill) -> int {
    money::trunc_div(f.margin_atoms * (f.qty_lots - pos.qty_lots), f.qty_lots as int)
}

/// The next state of a position after a fill settled at `price`: a fill of the
/// same side adds to it, one of the opposite side reduces it, closes it, or
/// closes it and opens the other side with what is left.
pub open spec fn updated(
    existing: Option<PositionRiskState>,
    f: Fill,
    price: i64,
) -> PositionUpdate {
    match existing {
        None => PositionUpdate {
            position: Some(
                opened(
                    f.user_id,
                    f.symbol,
                    f.side(),
                    price,
                    f.qty_lots,
                    f.margin_atoms,
                    f.notional_scale,
                    f.leverage,
                    f.maintenance_rate_bps,
                ),
            ),
            released_margin: 0,
            realized_pnl: 0,
        },
        Some(pos) => if pos.side == f.side() {
            PositionUpdate {
                position: Some(
                    revalued(
                        refreshed(grown(pos, price, f), f.notional_scale, f.maintenance_rate_bps),
                        f.notional_scale,
                    ),
                ),
                released_margin: 0,
                realized_pnl: 0,
            }
        } else if f.qty_lots >= pos.qty_lots {
            PositionUpdate {
                position: if f.qty_lots == pos.qty_lots {
                    None
                } else {
                    Some(
                        opened(
                            f.user_id,
                            f.symbol,
                            f.side(),
                            price,
                            (f.qty_lots - pos.qty_lots) as i64,
                            flip_share(pos, f) as i64,
                            f.notional_scale,
                            f.leverage,
                            f.maintenance_rate_bps,
                        ),
                    )
                },
                released_margin: pos.initial_margin,
                realized_pnl: realized(pos, price, pos.qty_lots, f.notional_scale),
            }
        } else {
            PositionUpdate {
                position: Some(
                    revalued(
                        refreshed(shrunk(pos, price, f), f.notional_scale, f.maintenance_rate_bps),
                        f.notional_scale,
                    ),
                ),
                released_margin: released_share(pos, f.qty_lots) as i64,
                realized_pnl: realized(pos, price, f.qty_lots, f.notional_scale),
            }
        },
    }
}

/// Whether every step of `updated` stays within machine arithmetic.
pub open spec fn update_fits(existing: Option<PositionRiskState>, f: Fill, price: i64) -> bool {
    match existing {
        None => {
            &&& f.leverage > 0
            &&& crate::risk::calc::notional_fits(price as int, f.qty_lots as int, f.notional_scale as int)
        },
        Some(pos) => if pos.side == f.side() {
            let next = grown(pos, price, f);
            &&& money::fits_i64(pos.qty_lots + f.qty_lots)
            &&& money::ratio_fits(
                pos.entry_price_ticks * pos.qty_lots + price * f.qty_lots,
                pos.qty_lots + f.qty_lots,
            )
            &&& money::fits_i64(pos.initial_margin + f.margin_atoms)
            &&& refresh_fits(next, f.notional_scale)
            &&& revalue_fits(next, f.notional_scale)
        } else if f.qty_lots >= pos.qty_lots {
            &&& realized_fits(pos, price, pos.qty_lots, f.notional_scale)
            &&& money::fits_i64(f.qty_lots - pos.qty_lots)
            &&& f.qty_lots != pos.qty_lots ==> {
                &&& f.leverage > 0
                &&& share_fits(
                    f.margin_atoms * (f.qty_lots - pos.qty_lots),
                    f.qty_lots as int,
                )
                &&& crate::risk::calc::notional_fits(
                    price as int,
                    f.qty_lots - pos.qty_lots,
                    f.notional_scale as int,
                )
            }
        } else {
            let next = shrunk(pos, price, f);
            &&& realized_fits(pos, price, f.qty_lots, f.notional_scale)
            &&& share_fits(pos.initial_margin * f.qty_lots, pos.qty_lots as int)
            &&& money::fits_i64(pos.qty_lots - f.qty_lots)
            &&& money::fits_i64(pos.initial_margin - released_share(pos, f.qty_lots))
            &&& refresh_fits(next, f.notional_scale)
            &&& revalue_fits(next, f.notional_scale)
        },
    }
}

fn open_position(
    f: &Fill,
    side: PositionSide,
    price: i64,
    qty: i64,
    margin: i64,
) -> (r: PositionRiskState)
    requires
        f.leverage > 0,
        crate::risk::calc::notional_fits(price as int, qty as int, f.notional_scale as int),
    ensures
        r == opened(
            f.user_id,
            f.symbol,
            side,
            price,
            qty,
            margin,
            f.notional_scale,
            f.leverage,
            f.maintenance_rate_bps,
        ),
{
    let notional = crate::risk::calc::calc_notional_atoms(price, qty, f.notional_scale);
    PositionRiskState {
        user_id: f.user_id,
        symbol: f.symbol,
        side,
        qty_lots: qty,
        entry_price_ticks: price,
        mark_price_ticks: price,
        unrealized_pnl: 0,
        initial_margin: margin,
        maintenance_margin: crate::risk::calc::calc_maintenance_margin_atoms(notional, f.maintenance_rate_bps),
        liquidation_price_ticks: crate::risk::calc::calc_liquidation_price_ticks(
            price,
            f.leverage,
            f.maintenance_rate_bps,
            side,
        ),
        bankruptcy_price_ticks: crate::risk::calc::calc_bankruptcy_price_ticks(price, f.leverage, side),
        leverage: f.leverage,
    }
}

/// Works out maintenance margin, liquidation price and bankruptcy price anew.
pub fn refresh_risk_fields(
    pos: &mut PositionRiskState,
    notional_scale: i64,
    maintenance_rate_bps: i64,
)
    requires
        refresh_fits(*old(pos), notional_scale),
    ensures
        *final(pos) == refreshed(*old(pos), notional_scale, maintenance_rate_bps),
{
    let notional = crate::risk::calc::calc_notional_atoms(pos.entry_price_ticks, pos.qty_lots, notional_scale);
    pos.maintenance_margin = crate::risk::calc::calc_maintenance_margin_atoms(notional, maintenance_rate_bps);
    pos.liquidation_price_ticks =
    crate::risk::calc::calc_liquidation_price_ticks(
        pos.entry_price_ticks,
        pos.leverage,
        maintenance_rate_bps,
        pos.side,
    );
    pos.bankruptcy_price_ticks =
    crate::risk::calc::calc_bankruptcy_price_ticks(pos.entry_price_ticks, pos.leverage, pos.side);
}

/// Works out the open result anew.
pub fn refresh_unrealized_pnl(pos: &mut PositionRiskState, notional_scale: i64)
    requires
        revalue_fits(*old(pos), notional_scale),
    ensures
        *final(pos) == revalued(*old(pos), notional_scale),
{
    pos.unrealized_pnl =
    crate::risk::calc::calc_unrealized_pnl_atoms(
        pos.side,
        pos.qty_lots,
        pos.entry_price_ticks,
        pos.mark_price_ticks,
        notional_scale,
    );
}

fn share_of(a: i64, b: i64, c: i64) -> (r: Option<i64>)
    ensures
        r is Some <==> share_fits(a * b, c as int),
        r is Some ==> r->0 == money::trunc_div(a * b, c as int),
{
    proof {
        money::lemma_i64_product(a as int, b as int);
    }
    match a.checked_mul(b) {
        Some(product) => product.checked_div(c),
        None => None,
    }
}

fn refreshed_in_range(pos: PositionRiskState, f: &Fill) -> (r: Option<PositionRiskState>)
    ensures
        r is Some <==> refresh_fits(pos, f.notional_scale) && revalue_fits(pos, f.notional_scale),
        r is Some ==> r->0 == revalued(
            refreshed(pos, f.notional_scale, f.maintenance_rate_bps),
            f.notional_scale,
        ),
{
    if pos.leverage == 0 || !crate::risk::calc::notional_in_range(
        pos.entry_price_ticks,
        pos.qty_lots,
        f.notional_scale,
    ) || !crate::risk::calc::unrealized_pnl_in_range(
        pos.side,
        pos.qty_lots,
        pos.entry_price_ticks,
        pos.mark_price_ticks,
        f.notional_scale,
    ) {
        return None;
    }
    let mut next = pos;
    refresh_risk_fields(&mut next, f.notional_scale, f.maintenance_rate_bps);
    refresh_unrealized_pnl(&mut next, f.notional_scale);
    Some(next)
}

fn realize(pos: &PositionRiskState, price: i64, qty: i64, scale: i64) -> (r: Option<i64>)
    ensures
        r is Some <==> realized_fits(*pos, price, qty, scale),
        r is Some ==> r->0 == realized(*pos, price, qty, scale),
{
    let diff = match price.checked_sub(pos.entry_price_ticks) {
        Some(d) => d as i128,
        None => {
            return None;
        },
    };
    let gain = match pos.side {
        PositionSide::Long => diff,
        PositionSide::Short => -diff,
    };
    proof {
        assert(-0x4000_0000_0000_0000_0000_0000_0000_0000 <= gain * qty
            <= 0x4000_0000_0000_0000_0000_0000_0000_0000) by (nonlinear_arith)
            requires
                -0x8000_0000_0000_0000 <= gain <= 0x8000_0000_0000_0000,
                -0x8000_0000_0000_0000 <= qty <= 0x7fff_ffff_ffff_ffff,
        ;
    }
    let product = gain * qty as i128;
    match product.checked_mul(crate::risk::calc::ATOMS_PER_CENT) {
        Some(raw) => match raw.checked_div(scale as i128) {
            Some(v) => Some(v as i64),
            None => None,
        },
        None => None,
    }
}

fn grow(pos: &PositionRiskState, f: &Fill, price: i64) -> (r: Option<PositionUpdate>)
    requires
        pos.side == f.side(),
    ensures
        r is Some <==> update_fits(Some(*pos), *f, price),
        r is Some ==> r->0 == updated(Some(*pos), *f, price),
{
    let qty = match pos.qty_lots.checked_add(f.qty_lots) {
        Some(v) => v,
        None => {
            return None;
        },
    };
    proof {
        money::lemma_i64_product(pos.entry_price_ticks as int, pos.qty_lots as int);
        money::lemma_i64_product(price as int, f.qty_lots as int);
    }
    let held = pos.entry_price_ticks as i128 * pos.qty_lots as i128;
    let added = price as i128 * f.qty_lots as i128;
    let entry = match held.checked_add(added) {
        Some(cost) => match cost.checked_div(qty as i128) {
            Some(v) => v as i64,
            None => {
                return None;
            },
        },
        None => {
            return None;
        },
    };
    let margin = match pos.initial_margin.checked_add(f.margin_atoms) {
        Some(v) => v,
        None => {
            return None;
        },
    };
    let mut next = *pos;
    next.mark_price_ticks = price;
    next.entry_price_ticks = entry;
    next.qty_lots = qty;
    next.initial_margin = margin;
    proof {
        assert(next == grown(*pos, price, *f));
    }
    match refreshed_in_range(next, f) {
        Some(p) => Some(
            PositionUpdate { position: Some(p), released_margin: 0, realized_pnl: 0 },
        ),
        None => None,
    }
}

fn close(pos: &PositionRiskState, f: &Fill, price: i64) -> (r: Option<PositionUpdate>)
    requires
        pos.side != f.side(),
        f.qty_lots >= pos.qty_lots,
    ensures
        r is Some <==> update_fits(Some(*pos), *f, price),
        r is Some ==> r->0 == updated(Some(*pos), *f, price),
{
    let realized_pnl = match realize(pos, price, pos.qty_lots, f.notional_scale) {
        Some(v) => v,
        None => {
            return None;
        },
    };
    let rest = match f.qty_lots.checked_sub(pos.qty_lots) {
        Some(v) => v,
        None => {
            return None;
        },
    };
    if rest == 0 {
        return Some(
            PositionUpdate { position: None, released_margin: pos.initial_margin, realized_pnl },
        );
    }
    let margin = match share_of(f.margin_atoms, rest, f.qty_lots) {
        Some(v) => v,
        None => {
            return None;
        },
    };
    if f.leverage == 0 || !crate::risk::calc::notional_in_range(price, rest, f.notional_scale) {
        return None;
    }
    let side = if f.order_side == 0 {
        PositionSide::Long
    } else {
        PositionSide::Short
    };
    Some(
        PositionUpdate {
            position: Some(open_position(f, side, price, rest, margin)),
            released_margin: pos.initial_margin,
            realized_pnl,
        },
    )
}

fn shrink(pos: &PositionRiskState, f: &Fill, price: i64) -> (r: Option<PositionUpdate>)
    requires
        pos.side != f.side(),
        f.qty_lots < pos.qty_lots,
    ensures
        r is Some <==> update_fits(Some(*pos), *f, price),
        r is Some ==> r->0 == updated(Some(*pos), *f, price),
{
    let realized_pnl = match realize(pos, price, f.qty_lots, f.notional_scale) {
        Some(v) => v,
        None => {
            return None;
        },
    };
    let released_margin = match share_of(pos.initial_margin, f.qty_lots, pos.qty_lots) {
        Some(v) => v,
        None => {
            return None;
        },
    };
    let qty = match pos.qty_lots.checked_sub(f.qty_lots) {
        Some(v) => v,
        None => {
            return None;
        },
    };
    let margin = match pos.initial_margin.checked_sub(released_margin) {
        Some(v) => v,
        None => {
            return None;
        },
    };
    let mut next = *pos;
    next.mark_price_ticks = price;
    next.qty_lots = qty;
    next.initial_margin = margin;
    proof {
        assert(next == shrunk(*pos, price, *f));
    }
    match refreshed_in_range(next, f) {
        Some(p) => Some(PositionUpdate { position: Some(p), released_margin, realized_pnl }),
        None => None,
    }
}

/// What a fill settled at `price` makes of a position, or `None` where a step
/// would leave machine arithmetic.
pub fn try_position_update(
    existing: Option<PositionRiskState>,
    f: &Fill,
    price: i64,
) -> (r: Option<PositionUpdate>)
    ensures
        r is Some <==> update_fits(existing, *f, price),
        r is Some ==> r->0 == updated(existing, *f, price),
{
    let side = if f.order_side == 0 {
        PositionSide::Long
    } else {
        PositionSide::Short
    };
    match existing {
        None => {
            if f.leverage == 0 || !crate::risk::calc::notional_in_range(price, f.qty_lots, f.notional_scale) {
                return None;
            }
            Some(
                PositionUpdate {
                    position: Some(open_position(f, side, price, f.qty_lots, f.margin_atoms)),
                    released_margin: 0,
                    realized_pnl: 0,
                },
            )
        },
        Some(pos) => if pos.side == side {
            grow(&pos, f, price)
        } else if f.qty_lots >= pos.qty_lots {
            close(&pos, f, price)
        } else {
            shrink(&pos, f, price)
        },
    }
}

/// What a fill settled at `price` makes of a position.
pub fn compute_position_update(
    existing: Option<PositionRiskState>,
    f: &Fill,
    price: i64,
) -> (r: PositionUpdate)
    requires
        update_fits(existing, *f, price),
    ensures
        r == updated(existing, *f, price),
{
    match try_position_update(existing, f, price) {
        Some(update) => update,
        None => PositionUpdate { position: None, released_margin: 0, realized_pnl: 0 },
    }
}

} // verus!
