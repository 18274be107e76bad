//! What fills, marks and ticks come to, in plain figures: how far a result may
//! be off for rounding, which way it points, and what it leaves alone.
use super::engine;
use super::engine::RiskView;
use super::position;
use super::position::Fill;
use super::types::{
    AccountRiskState, LiquidationEvent, PositionRiskState, PositionSide, RiskStatus,
};
use crate::maps::Symbol;
use crate::money;
use vstd::prelude::*;

verus! {

/// `+1` for what gains when the price rises, `-1` for what gains when it falls.
pub open spec fn direction(side: PositionSide) -> int {
    if side == PositionSide::Long {
        1
    } else {
        -1
    }
}

/// The direction that a fill trades: up for a buy, down for a sell.
pub open spec fn traded(f: Fill) -> int {
    if f.order_side == 0 {
        1
    } else {
        -1
    }
}

/// The price at which the user of a fill is settled.
pub open spec fn settled_at(f: Fill) -> int {
    if f.liq_price_ticks == 0 {
        f.price_ticks as int
    } else {
        f.liq_price_ticks as int
    }
}

/// `a` and `b` are less than `room` apart.
pub open spec fn within(a: int, b: int, room: int) -> bool {
    -room < a - b < room
}

/// `amount` is worth `ticks` times `lots` at a scale, less than an atom apart
/// and never further from zero.
pub open spec fn is_worth(amount: int, ticks: int, lots: int, scale: int) -> bool {
    &&& within(amount * scale, ticks * lots * 1_000_000, scale)
    &&& ticks * lots >= 0 ==> 0 <= amount * scale <= ticks * lots * 1_000_000
    &&& ticks * lots <= 0 ==> ticks * lots * 1_000_000 <= amount * scale <= 0
}

/// The worth of `ticks` times `lots` at a scale is a 64-bit amount.
pub open spec fn worth_fits(ticks: int, lots: int, scale: int) -> bool {
    -(i64::MAX * scale) <= ticks * lots * 1_000_000 <= i64::MAX * scale
}

proof fn lemma_quotient_fits(a: int, b: int)
    requires
        b > 0,
        -(i64::MAX * b) <= a <= i64::MAX * b,
    ensures
        -i64::MAX <= money::trunc_div(a, b) <= i64::MAX,
{
    money::law_division_rounds_toward_zero(a, b);
    let q = money::trunc_div(a, b);
    assert(q <= i64::MAX) by (nonlinear_arith)
        requires
            b > 0,
            a <= i64::MAX * b,
            a >= 0 ==> q * b <= a,
            a < 0 ==> q <= 0,
    ;
    assert(-i64::MAX <= q) by (nonlinear_arith)
        requires
            b > 0,
            -(i64::MAX * b) <= a,
            a <= 0 ==> q * b >= a,
            a > 0 ==> q >= 0,
    ;
}

pub proof fn lemma_notional(ticks: int, lots: int, scale: int)
    requires
        scale > 0,
    ensures
        is_worth(crate::risk::calc::notional(ticks, lots, scale), ticks, lots, scale),
        worth_fits(ticks, lots, scale) ==> -i64::MAX <= crate::risk::calc::notional(
            ticks,
            lots,
            scale,
        ) <= i64::MAX,
        crate::risk::calc::notional(-ticks, lots, scale) == -crate::risk::calc::notional(ticks, lots, scale),
{
    let raw = crate::risk::calc::raw_atoms(ticks, lots);
    money::law_division_rounds_toward_zero(raw, scale);
    assert(crate::risk::calc::raw_atoms(-ticks, lots) == -raw) by (nonlinear_arith)
        requires
            raw == ticks * lots * 1_000_000,
            crate::risk::calc::raw_atoms(-ticks, lots) == -ticks * lots * 1_000_000,
    ;
    if worth_fits(ticks, lots, scale) {
        lemma_quotient_fits(raw, scale);
    }
}

/// The notional of an order is its price times its lots, in atoms.
pub proof fn law_notional_is_price_times_lots(price: int, lots: int, scale: int)
    requires
        scale > 0,
    ensures
        is_worth(crate::risk::calc::notional(price, lots, scale), price, lots, scale),
{
    lemma_notional(price, lots, scale);
}

/// The open result of a position is what the price has moved times its lots: a
/// long gains what a short of the same lots, entry and mark loses, a long
/// gains when the price rises and a short when it falls.
pub proof fn law_long_and_short_mirror_each_other(lots: int, entry: int, mark: int, scale: int)
    requires
        scale > 0,
    ensures
        crate::risk::calc::open_result(PositionSide::Long, lots, entry, mark, scale) + crate::risk::calc::open_result(
            PositionSide::Short,
            lots,
            entry,
            mark,
            scale,
        ) == 0,
        is_worth(
            crate::risk::calc::open_result(PositionSide::Long, lots, entry, mark, scale),
            mark - entry,
            lots,
            scale,
        ),
        is_worth(
            crate::risk::calc::open_result(PositionSide::Short, lots, entry, mark, scale),
            entry - mark,
            lots,
            scale,
        ),
        lots >= 0 && mark >= entry ==> crate::risk::calc::open_result(
            PositionSide::Long,
            lots,
            entry,
            mark,
            scale,
        ) >= 0,
        lots >= 0 && mark <= entry ==> crate::risk::calc::open_result(
            PositionSide::Short,
            lots,
            entry,
            mark,
            scale,
        ) >= 0,
        mark == entry ==> crate::risk::calc::open_result(PositionSide::Long, lots, entry, mark, scale) == 0,
{
    lemma_notional(mark - entry, lots, scale);
    lemma_notional(entry - mark, lots, scale);
    assert(entry - mark == -(mark - entry));
    let long = crate::risk::calc::open_result(PositionSide::Long, lots, entry, mark, scale);
    let short = crate::risk::calc::open_result(PositionSide::Short, lots, entry, mark, scale);
    if lots >= 0 && mark >= entry {
        assert((mark - entry) * lots >= 0) by (nonlinear_arith)
            requires
                lots >= 0,
                mark >= entry,
        ;
        assert(long >= 0) by (nonlinear_arith)
            requires
                long * scale >= 0,
                scale > 0,
        ;
    }
    if lots >= 0 && mark <= entry {
        assert((entry - mark) * lots >= 0) by (nonlinear_arith)
            requires
                lots >= 0,
                mark <= entry,
        ;
        assert(short >= 0) by (nonlinear_arith)
            requires
                short * scale >= 0,
                scale > 0,
        ;
    }
    if mark == entry {
        assert((mark - entry) * lots == 0) by (nonlinear_arith)
            requires
                mark == entry,
        ;
        assert(long == 0) by (nonlinear_arith)
            requires
                0 <= long * scale <= 0,
                scale > 0,
        ;
    }
}

/// A rate in basis points takes that many ten-thousandths of an amount, less
/// than an atom apart; a rebate, whose rate is negative, gives.
pub proof fn law_rate_takes_ten_thousandths(amount: int, bps: int)
    ensures
        within(crate::risk::calc::bps_of(amount, bps) * 10_000, amount * bps, 10_000),
        amount * bps >= 0 ==> 0 <= crate::risk::calc::bps_of(amount, bps) * 10_000 <= amount * bps,
        amount * bps <= 0 ==> amount * bps <= crate::risk::calc::bps_of(amount, bps) * 10_000 <= 0,
        crate::risk::calc::bps_of(amount, -bps) == -crate::risk::calc::bps_of(amount, bps),
{
    money::law_division_rounds_toward_zero(amount * bps, 10_000);
    assert(amount * -bps == -(amount * bps)) by (nonlinear_arith);
}

/// The initial margin of a leveraged notional, multiplied by the leverage, is
/// the notional again, less than the leverage apart.
pub proof fn law_margin_times_leverage_is_notional(notional: int, leverage: int)
    requires
        leverage > 0,
    ensures
        within(crate::risk::calc::initial_margin(notional, leverage) * leverage, notional, leverage),
        notional >= 0 ==> 0 <= crate::risk::calc::initial_margin(notional, leverage) * leverage <= notional,
        crate::risk::calc::initial_margin(notional, 0) == 0,
{
    money::law_division_rounds_toward_zero(notional, leverage);
}

/// At the bankruptcy price the loss on a lot is its entry divided by the
/// leverage, that is, the whole initial margin; at the liquidation price it is
/// smaller by the maintenance rate. A position is thus liquidated after it has
/// lost and before it is bankrupt.
pub proof fn law_liquidation_stands_before_bankruptcy(
    entry: int,
    leverage: int,
    rate_bps: int,
    side: PositionSide,
)
    requires
        entry > 0,
        leverage > 0,
        0 <= rate_bps <= 10_000,
    ensures
        within(
            direction(side) * (entry - crate::risk::calc::bankruptcy_price(entry, leverage, side)) * leverage,
            entry,
            leverage,
        ),
        within(
            direction(side) * (entry - crate::risk::calc::liquidation_price(entry, leverage, rate_bps, side))
                * leverage * 10_000,
            entry * (10_000 - rate_bps),
            leverage * 10_000,
        ),
        side == PositionSide::Long ==> 0 <= crate::risk::calc::bankruptcy_price(entry, leverage, side)
            <= crate::risk::calc::liquidation_price(entry, leverage, rate_bps, side) <= entry,
        side == PositionSide::Short ==> entry <= crate::risk::calc::liquidation_price(
            entry,
            leverage,
            rate_bps,
            side,
        ) <= crate::risk::calc::bankruptcy_price(entry, leverage, side),
{
    let b = crate::risk::calc::bankruptcy_price(entry, leverage, side);
    let l = crate::risk::calc::liquidation_price(entry, leverage, rate_bps, side);
    let d = leverage * 10_000;
    if side == PositionSide::Long {
        let x = entry * (leverage - 1);
        let y = entry * (leverage * 10_000 - 10_000 + rate_bps);
        money::law_division_rounds_toward_zero(x, leverage);
        money::law_division_rounds_toward_zero(y, d);
        assert(x >= 0 && y >= 0 && y >= x * 10_000 && y <= entry * d && x == entry * leverage
            - entry && y == entry * d - entry * (10_000 - rate_bps)) by (nonlinear_arith)
            requires
                x == entry * (leverage - 1),
                y == entry * (leverage * 10_000 - 10_000 + rate_bps),
                d == leverage * 10_000,
                entry > 0,
                leverage >= 1,
                0 <= rate_bps <= 10_000,
        ;
        assert(direction(side) * (entry - b) * leverage == entry * leverage - b * leverage)
            by (nonlinear_arith)
            requires
                direction(side) == 1,
        ;
        assert(direction(side) * (entry - l) * leverage * 10_000 == entry * d - l * d)
            by (nonlinear_arith)
            requires
                direction(side) == 1,
                d == leverage * 10_000,
        ;
        assert(0 <= b <= l <= entry) by (nonlinear_arith)
            requires
                b * leverage <= x,
                b * leverage > x - leverage,
                l * d <= y,
                l * d > y - d,
                y >= x * 10_000,
                x >= 0,
                y <= entry * d,
                d == leverage * 10_000,
                leverage >= 1,
        ;
    } else {
        let x = entry * (leverage + 1);
        let y = entry * (leverage * 10_000 + 10_000 - rate_bps);
        money::law_division_rounds_toward_zero(x, leverage);
        money::law_division_rounds_toward_zero(y, d);
        assert(x >= 0 && y >= 0 && y <= x * 10_000 && y >= entry * d && x == entry * leverage
            + entry && y == entry * d + entry * (10_000 - rate_bps)) by (nonlinear_arith)
            requires
                x == entry * (leverage + 1),
                y == entry * (leverage * 10_000 + 10_000 - rate_bps),
                d == leverage * 10_000,
                entry > 0,
                leverage >= 1,
                0 <= rate_bps <= 10_000,
        ;
        assert(direction(side) * (entry - b) * leverage == b * leverage - entry * leverage)
            by (nonlinear_arith)
            requires
                direction(side) == -1,
        ;
        assert(direction(side) * (entry - l) * leverage * 10_000 == l * d - entry * d)
            by (nonlinear_arith)
            requires
                direction(side) == -1,
                d == leverage * 10_000,
        ;
        assert(entry <= l <= b) by (nonlinear_arith)
            requires
                b * leverage <= x,
                b * leverage > x - leverage,
                l * d <= y,
                l * d > y - d,
                y <= x * 10_000,
                y >= entry * d,
                d == leverage * 10_000,
                leverage >= 1,
        ;
    }
}

/// The figures of a position are those of its entry, lots, mark and leverage:
/// the maintenance margin takes its rate of the notional, the open result is
/// what the price moved since entry, and the liquidation price stands between
/// entry and bankruptcy price.
pub open spec fn figures_follow(p: PositionRiskState, scale: int, rate_bps: int) -> bool {
    &&& worth_fits(p.entry_price_ticks as int, p.qty_lots as int, scale) ==> within(
        p.maintenance_margin * 10_000 * scale,
        p.entry_price_ticks * p.qty_lots * 1_000_000 * rate_bps,
        10_000 * scale + rate_bps * scale,
    )
    &&& worth_fits(p.mark_price_ticks - p.entry_price_ticks, p.qty_lots as int, scale) ==> is_worth(
        p.unrealized_pnl as int,
        direction(p.side) * (p.mark_price_ticks - p.entry_price_ticks),
        p.qty_lots as int,
        scale,
    )
    &&& p.entry_price_ticks > 0 && 2 * p.entry_price_ticks <= i64::MAX ==> {
        &&& within(
            direction(p.side) * (p.entry_price_ticks - p.bankruptcy_price_ticks) * p.leverage,
            p.entry_price_ticks as int,
            p.leverage as int,
        )
        &&& within(
            direction(p.side) * (p.entry_price_ticks - p.liquidation_price_ticks) * p.leverage
                * 10_000,
            p.entry_price_ticks * (10_000 - rate_bps),
            p.leverage * 10_000,
        )
        &&& p.side == PositionSide::Long ==> p.bankruptcy_price_ticks <= p.liquidation_price_ticks
            <= p.entry_price_ticks
        &&& p.side == PositionSide::Short ==> p.entry_price_ticks <= p.liquidation_price_ticks
            <= p.bankruptcy_price_ticks
    }
}

proof fn lemma_maintenance(price: i64, qty: i64, scale: i64, rate_bps: i64)
    requires
        scale > 0,
        0 <= rate_bps <= 10_000,
        worth_fits(price as int, qty as int, scale as int),
    ensures
        within(
            position::maintenance(price, qty, scale, rate_bps) * 10_000 * scale,
            price * qty * 1_000_000 * rate_bps,
            10_000 * scale + rate_bps * scale,
        ),
{
    let n = crate::risk::calc::notional(price as int, qty as int, scale as int);
    lemma_notional(price as int, qty as int, scale as int);
    law_rate_takes_ten_thousandths(n, rate_bps as int);
    let m = crate::risk::calc::bps_of(n, rate_bps as int);
    let raw = price * qty * 1_000_000;
    assert(-i64::MAX <= m <= i64::MAX) by (nonlinear_arith)
        requires
            i64::MIN <= n <= i64::MAX,
            0 <= rate_bps <= 10_000,
            n * rate_bps >= 0 ==> 0 <= m * 10_000 <= n * rate_bps,
            n * rate_bps <= 0 ==> n * rate_bps <= m * 10_000 <= 0,
            n != i64::MIN,
    ;
    assert(within(m * 10_000 * scale, raw * rate_bps, 10_000 * scale + rate_bps * scale))
        by (nonlinear_arith)
        requires
            -10_000 < m * 10_000 - n * rate_bps < 10_000,
            -scale < n * scale - raw < scale,
            scale > 0,
            0 <= rate_bps <= 10_000,
    ;
}

proof fn lemma_exit_prices(entry: i64, leverage: u8, rate_bps: i64, side: PositionSide)
    requires
        entry > 0,
        2 * entry <= i64::MAX,
        leverage > 0,
        0 <= rate_bps <= 10_000,
    ensures
        money::fits_i64(
            crate::risk::calc::liquidation_price(
                entry as int,
                leverage as int,
                rate_bps as int,
                side,
            ),
        ),
        money::fits_i64(
            crate::risk::calc::bankruptcy_price(entry as int, leverage as int, side),
        ),
{
    law_liquidation_stands_before_bankruptcy(
        entry as int,
        leverage as int,
        rate_bps as int,
        side,
    );
    let b = crate::risk::calc::bankruptcy_price(entry as int, leverage as int, side);
    if side == PositionSide::Short {
        let x = entry * (leverage + 1);
        money::law_division_rounds_toward_zero(x, leverage as int);
        assert(b <= 2 * entry) by (nonlinear_arith)
            requires
                b * leverage <= entry * (leverage + 1) || entry * (leverage + 1) < 0,
                leverage >= 1,
                entry > 0,
        ;
    }
}

proof fn lemma_refreshed_figures(p: PositionRiskState, scale: i64, rate_bps: i64)
    requires
        scale > 0,
        p.leverage > 0,
        0 <= rate_bps <= 10_000,
    ensures
        figures_follow(
            position::revalued(position::refreshed(p, scale, rate_bps), scale),
            scale as int,
            rate_bps as int,
        ),
{
    let e = p.entry_price_ticks;
    if worth_fits(e as int, p.qty_lots as int, scale as int) {
        lemma_maintenance(e, p.qty_lots, scale, rate_bps);
    }
    if worth_fits(p.mark_price_ticks - e, p.qty_lots as int, scale as int) {
        lemma_open_result(p, scale);
    }
    if e > 0 && 2 * e <= i64::MAX {
        lemma_exit_prices(e, p.leverage, rate_bps, p.side);
        law_liquidation_stands_before_bankruptcy(
            e as int,
            p.leverage as int,
            rate_bps as int,
            p.side,
        );
    }
}

proof fn lemma_open_result(p: PositionRiskState, scale: i64)
    requires
        scale > 0,
        worth_fits(p.mark_price_ticks - p.entry_price_ticks, p.qty_lots as int, scale as int),
    ensures
        is_worth(
            position::revalued(p, scale).unrealized_pnl as int,
            direction(p.side) * (p.mark_price_ticks - p.entry_price_ticks),
            p.qty_lots as int,
            scale as int,
        ),
{
    lemma_signed_worth(
        p.side,
        p.qty_lots as int,
        p.entry_price_ticks as int,
        p.mark_price_ticks as int,
        scale as int,
    );
}

/// The open result of either side is a 64-bit amount worth the move in its
/// favour.
proof fn lemma_signed_worth(side: PositionSide, lots: int, entry: int, mark: int, scale: int)
    requires
        scale > 0,
        worth_fits(mark - entry, lots, scale),
    ensures
        is_worth(
            crate::risk::calc::open_result(side, lots, entry, mark, scale),
            direction(side) * (mark - entry),
            lots,
            scale,
        ),
        money::fits_i64(crate::risk::calc::open_result(side, lots, entry, mark, scale)),
{
    let d = direction(side) * (mark - entry);
    law_long_and_short_mirror_each_other(lots, entry, mark, scale);
    assert(d == mark - entry || d == entry - mark);
    assert((entry - mark) * lots == -((mark - entry) * lots)) by (nonlinear_arith);
    lemma_notional(d, lots, scale);
}

/// A buy without a position opens a long, a sell a short, of the lots of the
/// fill at its price, bound by its margin; nothing is set free or realised.
pub proof fn law_first_fill_opens(f: Fill)
    requires
        f.notional_scale > 0,
        f.leverage > 0,
        0 <= f.maintenance_rate_bps <= 10_000,
    ensures
        ({
            let u = position::updated(None, f, f.settlement_price());
            &&& u.released_margin == 0
            &&& u.realized_pnl == 0
            &&& u.position matches Some(p) && {
                &&& p.user_id == f.user_id && p.symbol == f.symbol && p.leverage == f.leverage
                &&& direction(p.side) == traded(f)
                &&& p.qty_lots == f.qty_lots
                &&& p.entry_price_ticks == settled_at(f)
                &&& p.mark_price_ticks == settled_at(f)
                &&& p.initial_margin == f.margin_atoms
                &&& p.unrealized_pnl == 0
                &&& figures_follow(p, f.notional_scale as int, f.maintenance_rate_bps as int)
            }
        }),
{
    let p = position::updated(None, f, f.settlement_price()).position->0;
    lemma_opened_figures(p, f);
}

/// A freshly opened position has the figures that follow from it.
proof fn lemma_opened_figures(p: PositionRiskState, f: Fill)
    requires
        f.notional_scale > 0,
        f.leverage > 0,
        0 <= f.maintenance_rate_bps <= 10_000,
        p == position::opened(
            p.user_id,
            p.symbol,
            p.side,
            p.entry_price_ticks,
            p.qty_lots,
            p.initial_margin,
            f.notional_scale,
            f.leverage,
            f.maintenance_rate_bps,
        ),
    ensures
        figures_follow(p, f.notional_scale as int, f.maintenance_rate_bps as int),
{
    let e = p.entry_price_ticks;
    let scale = f.notional_scale;
    if worth_fits(e as int, p.qty_lots as int, scale as int) {
        lemma_maintenance(e, p.qty_lots, scale, f.maintenance_rate_bps);
    }
    assert(direction(p.side) * (p.mark_price_ticks - e) == 0) by (nonlinear_arith)
        requires
            p.mark_price_ticks == e,
    ;
    assert(0 * p.qty_lots == 0);
    assert(0 * scale == 0);
    if e > 0 && 2 * e <= i64::MAX {
        lemma_exit_prices(e, p.leverage, f.maintenance_rate_bps, p.side);
        law_liquidation_stands_before_bankruptcy(
            e as int,
            p.leverage as int,
            f.maintenance_rate_bps as int,
            p.side,
        );
    }
}

/// Adding to a position keeps its cost: lots and margin add up, and entry times
/// lots is what the lots held and the lots added cost, less than a tick per lot
/// apart. The entry stays between the two prices; nothing is realised.
pub proof fn law_adding_keeps_the_cost(pos: PositionRiskState, f: Fill)
    requires
        direction(pos.side) == traded(f),
        pos.qty_lots > 0,
        f.qty_lots > 0,
        pos.qty_lots + f.qty_lots <= i64::MAX,
        money::fits_i64(pos.initial_margin + f.margin_atoms),
        f.notional_scale > 0,
        pos.leverage > 0,
        0 <= f.maintenance_rate_bps <= 10_000,
    ensures
        ({
            let u = position::updated(Some(pos), f, f.settlement_price());
            let held = pos.qty_lots as int;
            let cost = pos.entry_price_ticks * held + settled_at(f) * f.qty_lots;
            &&& u.released_margin == 0
            &&& u.realized_pnl == 0
            &&& u.position matches Some(p) && {
                &&& p.user_id == pos.user_id && p.symbol == pos.symbol && p.leverage == pos.leverage
                &&& p.side == pos.side
                &&& p.qty_lots == held + f.qty_lots
                &&& p.initial_margin == pos.initial_margin + f.margin_atoms
                &&& p.mark_price_ticks == settled_at(f)
                &&& within(p.entry_price_ticks * (held + f.qty_lots), cost, held + f.qty_lots)
                &&& pos.entry_price_ticks <= p.entry_price_ticks <= settled_at(f) || settled_at(f)
                    <= p.entry_price_ticks <= pos.entry_price_ticks
                &&& figures_follow(p, f.notional_scale as int, f.maintenance_rate_bps as int)
            }
        }),
{
    let price = f.settlement_price();
    let a = pos.entry_price_ticks as int;
    let b = price as int;
    let h = pos.qty_lots as int;
    let q = f.qty_lots as int;
    let cost = a * h + b * q;
    let e = position::average_entry(pos, price, f.qty_lots);
    money::law_division_rounds_toward_zero(cost, h + q);
    assert(e == money::trunc_div(cost, h + q));
    assert(a <= e <= b || b <= e <= a) by (nonlinear_arith)
        requires
            h > 0,
            q > 0,
            cost == a * h + b * q,
            -(h + q) < e * (h + q) - cost < h + q,
            cost >= 0 ==> 0 <= e && e * (h + q) <= cost,
            cost <= 0 ==> e <= 0 && cost <= e * (h + q),
    ;
    let next = position::grown(pos, price, f);
    lemma_refreshed_figures(next, f.notional_scale, f.maintenance_rate_bps);
}

/// Reducing a position closes lots at the price of the fill: the rest keeps
/// side and entry, the margin is shared by lots between what is set free and
/// what stays bound, and the result realised is what the price moved in favour
/// of the position on the lots closed.
pub proof fn law_reducing_realises_the_closed_lots(pos: PositionRiskState, f: Fill)
    requires
        direction(pos.side) != traded(f),
        0 < f.qty_lots < pos.qty_lots,
        f.notional_scale > 0,
        pos.leverage > 0,
        0 <= f.maintenance_rate_bps <= 10_000,
        worth_fits(
            settled_at(f) - pos.entry_price_ticks,
            f.qty_lots as int,
            f.notional_scale as int,
        ),
    ensures
        ({
            let u = position::updated(Some(pos), f, f.settlement_price());
            &&& is_worth(
                u.realized_pnl as int,
                direction(pos.side) * (settled_at(f) - pos.entry_price_ticks),
                f.qty_lots as int,
                f.notional_scale as int,
            )
            &&& within(
                u.released_margin * pos.qty_lots,
                pos.initial_margin * f.qty_lots,
                pos.qty_lots as int,
            )
            &&& u.position matches Some(p) && {
                &&& p.user_id == pos.user_id && p.symbol == pos.symbol && p.leverage == pos.leverage
                &&& p.side == pos.side
                &&& p.qty_lots == pos.qty_lots - f.qty_lots
                &&& p.entry_price_ticks == pos.entry_price_ticks
                &&& p.mark_price_ticks == settled_at(f)
                &&& p.initial_margin + u.released_margin == pos.initial_margin
                &&& figures_follow(p, f.notional_scale as int, f.maintenance_rate_bps as int)
            }
        }),
{
    let price = f.settlement_price();
    lemma_signed_worth(
        pos.side,
        f.qty_lots as int,
        pos.entry_price_ticks as int,
        price as int,
        f.notional_scale as int,
    );
    let m = pos.initial_margin as int;
    let share = position::released_share(pos, f.qty_lots);
    money::law_division_rounds_toward_zero(m * f.qty_lots, pos.qty_lots as int);
    let q = f.qty_lots as int;
    let h = pos.qty_lots as int;
    assert(m >= 0 ==> 0 <= share <= m) by (nonlinear_arith)
        requires
            0 < q < h,
            m * q >= 0 ==> 0 <= share && share * h <= m * q,
    ;
    assert(m <= 0 ==> m <= share <= 0) by (nonlinear_arith)
        requires
            0 < q < h,
            m * q <= 0 ==> share <= 0 && m * q <= share * h,
    ;
    let next = position::shrunk(pos, price, f);
    lemma_refreshed_figures(next, f.notional_scale, f.maintenance_rate_bps);
}

/// A fill of the other side that covers the position closes it: all its margin
/// is set free and the result on all its lots realised. What the fill has
/// beyond them opens the other side at the price of the fill, bound by their
/// share of the margin of the fill.
pub proof fn law_covering_closes_and_turns(pos: PositionRiskState, f: Fill)
    requires
        direction(pos.side) != traded(f),
        0 < pos.qty_lots <= f.qty_lots,
        f.notional_scale > 0,
        f.leverage > 0,
        0 <= f.maintenance_rate_bps <= 10_000,
        worth_fits(
            settled_at(f) - pos.entry_price_ticks,
            pos.qty_lots as int,
            f.notional_scale as int,
        ),
    ensures
        ({
            let u = position::updated(Some(pos), f, f.settlement_price());
            &&& u.released_margin == pos.initial_margin
            &&& is_worth(
                u.realized_pnl as int,
                direction(pos.side) * (settled_at(f) - pos.entry_price_ticks),
                pos.qty_lots as int,
                f.notional_scale as int,
            )
            &&& f.qty_lots == pos.qty_lots ==> u.position is None
            &&& f.qty_lots > pos.qty_lots ==> (u.position matches Some(p) && {
                &&& p.user_id == f.user_id && p.symbol == f.symbol && p.leverage == f.leverage
                &&& p.side != pos.side
                &&& p.qty_lots == f.qty_lots - pos.qty_lots
                &&& p.entry_price_ticks == settled_at(f)
                &&& p.mark_price_ticks == settled_at(f)
                &&& p.unrealized_pnl == 0
                &&& within(
                    p.initial_margin * f.qty_lots,
                    f.margin_atoms * (f.qty_lots - pos.qty_lots),
                    f.qty_lots as int,
                )
                &&& figures_follow(p, f.notional_scale as int, f.maintenance_rate_bps as int)
            })
        }),
{
    let price = f.settlement_price();
    lemma_signed_worth(
        pos.side,
        pos.qty_lots as int,
        pos.entry_price_ticks as int,
        price as int,
        f.notional_scale as int,
    );
    if f.qty_lots > pos.qty_lots {
        let m = f.margin_atoms as int;
        let r = f.qty_lots - pos.qty_lots;
        let q = f.qty_lots as int;
        let share = position::flip_share(pos, f);
        money::law_division_rounds_toward_zero(m * r, q);
        assert(m >= 0 ==> 0 <= share <= m) by (nonlinear_arith)
            requires
                0 < r <= q,
                m * r >= 0 ==> 0 <= share && share * q <= m * r,
        ;
        assert(m <= 0 ==> m <= share <= 0) by (nonlinear_arith)
            requires
                0 < r <= q,
                m * r <= 0 ==> share <= 0 && m * r <= share * q,
        ;
        let p = position::updated(Some(pos), f, price).position->0;
        lemma_opened_figures(p, f);
    }
}

/// The position of a user in a symbol, where there is one.
pub open spec fn held_by(v: RiskView, user_id: i64, symbol: Symbol) -> Option<PositionRiskState> {
    if v.positions.contains_key((user_id, symbol)) {
        Some(v.positions[(user_id, symbol)])
    } else {
        None
    }
}

/// A figure of a position that may not be there; it then counts nothing.
pub open spec fn figure(p: Option<PositionRiskState>, of: spec_fn(PositionRiskState) -> int) -> int {
    match p {
        Some(pos) => of(pos),
        None => 0,
    }
}

/// `v`, or zero where it is negative.
pub open spec fn no_less_than_zero(v: int) -> int {
    if v >= 0 {
        v
    } else {
        0
    }
}

/// Whether a fill trades against the position its user holds.
pub open spec fn trades_against(v: RiskView, f: Fill) -> bool {
    held_by(v, f.user_id, f.symbol) matches Some(p) && direction(p.side) != traded(f)
}

/// The margin that a position gave up: all of it where the side it was on is
/// gone.
pub open spec fn given_up(before: PositionRiskState, after: Option<PositionRiskState>) -> int {
    match after {
        Some(p) if p.side == before.side => before.initial_margin - p.initial_margin,
        _ => before.initial_margin as int,
    }
}

/// The margin of a position that stands on the other side than before.
pub open spec fn taken_up(before: PositionRiskState, after: Option<PositionRiskState>) -> int {
    match after {
        Some(p) if p.side != before.side => p.initial_margin as int,
        _ => 0,
    }
}

/// The lots that a fill closes of the position it trades against.
pub open spec fn closed_lots(before: PositionRiskState, f: Fill) -> int {
    if f.qty_lots < before.qty_lots {
        f.qty_lots as int
    } else {
        before.qty_lots as int
    }
}

/// After any fill the account's open result and maintenance margin have moved
/// with those of the position, its equity is what its parts add up to, and the
/// fill's margin no longer waits as order margin. No other account and no other
/// position is touched, and open interest moves with the lots held.
pub proof fn law_fill_moves_figures_with_the_position(v: RiskView, f: Fill)
    requires
        v.accounts.contains_key(f.user_id),
        engine::fill_fits(v, f),
    ensures
        ({
            let w = engine::filled(v, f);
            let a = v.accounts[f.user_id];
            let b = w.accounts[f.user_id];
            let p = held_by(v, f.user_id, f.symbol);
            let q = held_by(w, f.user_id, f.symbol);
            &&& b.user_id == a.user_id
            &&& b.unrealized_pnl - a.unrealized_pnl == figure(
                q,
                |x: PositionRiskState| x.unrealized_pnl as int,
            ) - figure(p, |x: PositionRiskState| x.unrealized_pnl as int)
            &&& b.maintenance_margin == no_less_than_zero(
                a.maintenance_margin + figure(
                    q,
                    |x: PositionRiskState| x.maintenance_margin as int,
                ) - figure(p, |x: PositionRiskState| x.maintenance_margin as int),
            )
            &&& b.order_margin == no_less_than_zero(a.order_margin - f.margin_atoms)
            &&& b.equity == b.available_margin + b.order_margin + b.used_margin + b.unrealized_pnl
            &&& (engine::entry_or_zero(w.open_interest, f.symbol) - engine::entry_or_zero(
                v.open_interest,
                f.symbol,
            ) - figure(q, |x: PositionRiskState| x.qty_lots as int) + figure(
                p,
                |x: PositionRiskState| x.qty_lots as int,
            )) % 0x1_0000_0000_0000_0000 == 0
            &&& w.accounts.dom() == v.accounts.dom()
            &&& forall|u: i64| u != f.user_id ==> #[trigger] w.accounts[u] == v.accounts[u]
            &&& forall|u: i64, s: Symbol|
                u != f.user_id || s != f.symbol ==> #[trigger] held_by(w, u, s) == held_by(v, u, s)
            &&& forall|s: Symbol|
                s != f.symbol ==> engine::entry_or_zero(w.open_interest, s)
                    == #[trigger] engine::entry_or_zero(v.open_interest, s)
            &&& forall|s: Symbol|
                v.marks.contains_key(s) ==> w.marks.contains_key(s) && #[trigger] w.marks[s]
                    == v.marks[s]
            &&& w.marks.contains_key(f.symbol)
            &&& !v.marks.contains_key(f.symbol) ==> w.marks[f.symbol] == f.price_ticks
        }),
{
    let w = engine::filled(v, f);
    assert(w.accounts.dom() =~= v.accounts.dom());
}

/// A fill that opens or adds moves its margin from waiting to used and leaves
/// what is available, the status and the insurance fund as they are.
pub proof fn law_opening_binds_its_margin(v: RiskView, f: Fill)
    requires
        v.accounts.contains_key(f.user_id),
        engine::fill_fits(v, f),
        !trades_against(v, f),
    ensures
        ({
            let w = engine::filled(v, f);
            let a = v.accounts[f.user_id];
            let b = w.accounts[f.user_id];
            &&& b.available_margin == a.available_margin
            &&& b.used_margin == a.used_margin + f.margin_atoms
            &&& b.status == a.status
            &&& w.fund == v.fund
        }),
{
}

proof fn lemma_released(v: RiskView, f: Fill)
    requires
        v.consistent(),
        f.qty_lots > 0,
        trades_against(v, f),
    ensures
        position::updated(
            Some(v.positions[(f.user_id, f.symbol)]),
            f,
            f.settlement_price(),
        ).released_margin == given_up(
            v.positions[(f.user_id, f.symbol)],
            held_by(engine::filled(v, f), f.user_id, f.symbol),
        ),
{
    let p = v.positions[(f.user_id, f.symbol)];
    let u = position::updated(Some(p), f, f.settlement_price());
    assert(engine::entry(v.positions, f.key()) == Some(p));
    assert(held_by(engine::filled(v, f), f.user_id, f.symbol) == u.position);
    assert(p.qty_lots > 0);
    if f.qty_lots < p.qty_lots {
        let m = p.initial_margin as int;
        let share = position::released_share(p, f.qty_lots);
        let k = f.qty_lots as int;
        let h = p.qty_lots as int;
        money::law_division_rounds_toward_zero(m * k, h);
        assert(m >= 0 ==> 0 <= share <= m) by (nonlinear_arith)
            requires
                0 < k < h,
                m * k >= 0 ==> 0 <= share && share * h <= m * k,
        ;
        assert(m <= 0 ==> m <= share <= 0) by (nonlinear_arith)
            requires
                0 < k < h,
                m * k <= 0 ==> share <= 0 && m * k <= share * h,
        ;
    }
}

/// A fill that closes lots sets their margin free and pays out their result:
/// what is available grows by the margin of the fill, the margin set free and
/// the result realised, less what a turned position binds, and never falls
/// below zero. An account in liquidation is released from it.
pub proof fn law_closing_pays_out_the_result(v: RiskView, f: Fill)
    requires
        v.consistent(),
        v.accounts.contains_key(f.user_id),
        f.qty_lots > 0,
        f.notional_scale > 0,
        engine::fill_fits(v, f),
        trades_against(v, f),
        worth_fits(
            settled_at(f) - v.positions[(f.user_id, f.symbol)].entry_price_ticks,
            closed_lots(v.positions[(f.user_id, f.symbol)], f),
            f.notional_scale as int,
        ),
        given_up(
            v.positions[(f.user_id, f.symbol)],
            held_by(engine::filled(v, f), f.user_id, f.symbol),
        ) > 0,
    ensures
        ({
            let w = engine::filled(v, f);
            let a = v.accounts[f.user_id];
            let b = w.accounts[f.user_id];
            let p = v.positions[(f.user_id, f.symbol)];
            let q = held_by(w, f.user_id, f.symbol);
            &&& b.used_margin == no_less_than_zero(a.used_margin - given_up(p, q)) + taken_up(p, q)
            &&& exists|result: int|
                #![trigger is_worth(
                    result,
                    direction(p.side) * (settled_at(f) - p.entry_price_ticks),
                    closed_lots(p, f),
                    f.notional_scale as int,
                )]
                {
                    &&& is_worth(
                        result,
                        direction(p.side) * (settled_at(f) - p.entry_price_ticks),
                        closed_lots(p, f),
                        f.notional_scale as int,
                    )
                    &&& b.available_margin == no_less_than_zero(
                        a.available_margin + f.margin_atoms + given_up(p, q) + result - taken_up(
                            p,
                            q,
                        ),
                    )
                    &&& f.liq_price_ticks == 0 ==> (w.fund - v.fund - (if a.status
                        == RiskStatus::Liquidating {
                        result
                    } else {
                        0
                    })) % 0x1_0000_0000_0000_0000 == 0
                }
            &&& a.status == RiskStatus::Liquidating ==> b.status == RiskStatus::Normal
            &&& a.status != RiskStatus::Liquidating ==> b.status == a.status
        }),
{
    let p = v.positions[(f.user_id, f.symbol)];
    let w = engine::filled(v, f);
    let q = held_by(w, f.user_id, f.symbol);
    let u = position::updated(Some(p), f, f.settlement_price());
    assert(engine::entry(v.positions, f.key()) == Some(p));
    assert(q == u.position);
    assert(p.qty_lots > 0);
    lemma_signed_worth(
        p.side,
        closed_lots(p, f),
        p.entry_price_ticks as int,
        settled_at(f),
        f.notional_scale as int,
    );
    lemma_released(v, f);
    assert(is_worth(
        u.realized_pnl as int,
        direction(p.side) * (settled_at(f) - p.entry_price_ticks),
        closed_lots(p, f),
        f.notional_scale as int,
    ));
}

/// A forced close settles the user at the liquidation price; the insurance
/// fund gains what the fill was better than that, and loses what it was worse.
pub proof fn law_forced_close_pays_the_fund(v: RiskView, f: Fill)
    requires
        v.consistent(),
        f.qty_lots > 0,
        f.order_side <= 1,
        f.notional_scale > 0,
        f.liq_price_ticks != 0,
        engine::fill_fits(v, f),
        trades_against(v, f),
        given_up(
            v.positions[(f.user_id, f.symbol)],
            held_by(engine::filled(v, f), f.user_id, f.symbol),
        ) > 0,
        worth_fits(f.price_ticks - f.liq_price_ticks, f.qty_lots as int, f.notional_scale as int),
    ensures
        exists|gain: int|
            #![trigger is_worth(
                gain,
                traded(f) * (f.liq_price_ticks - f.price_ticks),
                f.qty_lots as int,
                f.notional_scale as int,
            )]
            {
                &&& is_worth(
                    gain,
                    traded(f) * (f.liq_price_ticks - f.price_ticks),
                    f.qty_lots as int,
                    f.notional_scale as int,
                )
                &&& (engine::filled(v, f).fund - v.fund - gain) % 0x1_0000_0000_0000_0000 == 0
            },
{
    let p = v.positions[(f.user_id, f.symbol)];
    let u = position::updated(Some(p), f, f.settlement_price());
    assert(engine::entry(v.positions, f.key()) == Some(p));
    assert(p.qty_lots > 0);
    lemma_released(v, f);
    let d = traded(f) * (f.liq_price_ticks - f.price_ticks);
    let lots = f.qty_lots as int;
    assert((f.liq_price_ticks - f.price_ticks) * lots == -((f.price_ticks - f.liq_price_ticks)
        * lots)) by (nonlinear_arith);
    lemma_notional(d, lots, f.notional_scale as int);
    let gain = crate::risk::calc::notional(d, lots, f.notional_scale as int);
    assert(is_worth(gain, d, lots, f.notional_scale as int));
}

/// A new mark moves a tenth of the way to the price, less than a tick apart,
/// and never past it; the first price of a symbol is its mark.
pub proof fn law_mark_moves_a_tenth_of_the_way(v: RiskView, symbol: Symbol, price: i64, scale: i64)
    requires
        price > 0,
        engine::mark_fits(v, symbol, price, scale),
        v.marks.contains_key(symbol) ==> v.marks[symbol] > 0,
    ensures
        ({
            let mark = engine::marked(v, symbol, price, scale).marks[symbol];
            &&& !v.marks.contains_key(symbol) ==> mark == price
            &&& v.marks.contains_key(symbol) ==> {
                &&& 10 * mark <= price + 9 * v.marks[symbol] < 10 * mark + 10
                &&& mark <= price || mark <= v.marks[symbol]
                &&& mark >= price || mark >= v.marks[symbol]
            }
            &&& forall|s: Symbol|
                s != symbol && v.marks.contains_key(s) ==> #[trigger] engine::marked(
                    v,
                    symbol,
                    price,
                    scale,
                ).marks[s] == v.marks[s]
        }),
{
    let old = if v.marks.contains_key(symbol) {
        v.marks[symbol]
    } else {
        price
    };
    money::law_division_rounds_toward_zero(price + 9 * old, 10);
}

/// A new mark values every position in the symbol at it: the open result is
/// what the mark has moved since entry, and nothing else of the position
/// changes. The account carries the difference in open result and equity; its
/// margins stay. Positions in other symbols, and users without a position in
/// this one, are left alone.
pub proof fn law_mark_values_every_position(
    v: RiskView,
    symbol: Symbol,
    price: i64,
    scale: i64,
    user_id: i64,
)
    requires
        v.consistent(),
        scale > 0,
        engine::mark_fits(v, symbol, price, scale),
        v.accounts.contains_key(user_id),
    ensures
        ({
            let w = engine::marked(v, symbol, price, scale);
            let mark = w.marks[symbol];
            let a = v.accounts[user_id];
            let b = w.accounts[user_id];
            &&& w.accounts.dom() == v.accounts.dom() && w.positions.dom() == v.positions.dom()
            &&& w.fund == v.fund && w.open_interest == v.open_interest
            &&& forall|s: Symbol|
                s != symbol ==> #[trigger] held_by(w, user_id, s) == held_by(v, user_id, s)
            &&& held_by(v, user_id, symbol) is None ==> b == a
            &&& held_by(v, user_id, symbol) matches Some(p) ==> (held_by(w, user_id, symbol)
                matches Some(q) && {
                &&& q == (PositionRiskState {
                    mark_price_ticks: mark,
                    unrealized_pnl: q.unrealized_pnl,
                    ..p
                })
                &&& worth_fits(mark - p.entry_price_ticks, p.qty_lots as int, scale as int)
                    ==> is_worth(
                    q.unrealized_pnl as int,
                    direction(p.side) * (mark - p.entry_price_ticks),
                    p.qty_lots as int,
                    scale as int,
                )
                &&& b.unrealized_pnl == a.unrealized_pnl + q.unrealized_pnl - p.unrealized_pnl
                &&& b.equity == a.available_margin + a.order_margin + a.used_margin
                    + b.unrealized_pnl
                &&& b == (AccountRiskState {
                    unrealized_pnl: b.unrealized_pnl,
                    equity: b.equity,
                    ..a
                })
            })
        }),
{
    let w = engine::marked(v, symbol, price, scale);
    assert(w.accounts.dom() =~= v.accounts.dom());
    assert(w.positions.dom() =~= v.positions.dom());
    assert(engine::holders_of(v, symbol).contains(user_id) <==> v.positions.contains_key(
        (user_id, symbol),
    ));
    if v.positions.contains_key((user_id, symbol)) {
        assert(engine::marked_user(v, symbol, user_id));
        let p = v.positions[(user_id, symbol)];
        let mark = w.marks[symbol];
        if worth_fits(mark - p.entry_price_ticks, p.qty_lots as int, scale as int) {
            lemma_open_result(PositionRiskState { mark_price_ticks: mark, ..p }, scale);
        }
    }
}

/// A tick judges an account that holds a position, uses margin and is not
/// already being wound up by its equity against its maintenance margin: broke
/// at or below nothing, to be liquidated at or below the maintenance margin,
/// warned below one and a half times of it, and sound from there on.
pub proof fn law_tick_judges_equity_against_maintenance(v: RiskView, user_id: i64, symbol: Symbol)
    requires
        v.accounts.contains_key(user_id),
        held_by(v, user_id, symbol) is Some,
    ensures
        ({
            let a = v.accounts[user_id];
            let status = engine::ticked(v).accounts[user_id].status;
            if a.status == RiskStatus::Liquidating || a.status == RiskStatus::Liquidated || a.status
                == RiskStatus::Bankruptcy {
                status == a.status
            } else {
                &&& a.used_margin == 0 ==> status == RiskStatus::Normal
                &&& a.used_margin != 0 ==> {
                    &&& status == RiskStatus::Bankruptcy <==> a.equity <= 0
                    &&& status == RiskStatus::LiquidationPending <==> 0 < a.equity
                        <= a.maintenance_margin
                    &&& status == RiskStatus::MarginCall <==> a.equity > 0 && a.equity
                        > a.maintenance_margin && 2 * a.equity < 3 * a.maintenance_margin
                    &&& status == RiskStatus::Normal <==> a.equity > 0 && a.equity
                        > a.maintenance_margin && 2 * a.equity >= 3 * a.maintenance_margin
                }
            }
        }),
{
    assert(v.positions.contains_key((user_id, symbol)));
    assert(engine::exposed(v, user_id));
}

/// A tick sends a position to liquidation whole and only where its user has
/// come to stand at or below the maintenance margin, with equity left; every
/// position of such a user is sent.
pub proof fn law_tick_liquidates_only_below_maintenance(
    v: RiskView,
    events: Seq<LiquidationEvent>,
    user_id: i64,
    symbol: Symbol,
)
    requires
        engine::liquidates(v, events),
    ensures
        forall|i: int|
            0 <= i < events.len() ==> {
                let e = #[trigger] events[i];
                let a = v.accounts[e.user_id];
                &&& v.accounts.contains_key(e.user_id)
                &&& a.used_margin != 0
                &&& 0 < a.equity <= a.maintenance_margin
                &&& a.status == RiskStatus::Normal || a.status == RiskStatus::MarginCall
                &&& held_by(v, e.user_id, e.symbol) matches Some(p) && {
                    &&& e.side == p.side
                    &&& e.qty_lots == p.qty_lots
                    &&& e.liq_price_ticks == p.liquidation_price_ticks
                }
            },
        held_by(v, user_id, symbol) is Some && v.accounts.contains_key(user_id) && (
        v.accounts[user_id].status == RiskStatus::Normal || v.accounts[user_id].status
            == RiskStatus::MarginCall) && v.accounts[user_id].used_margin != 0 && 0
            < v.accounts[user_id].equity <= v.accounts[user_id].maintenance_margin
            ==> exists|i: int|
            0 <= i < events.len() && (#[trigger] events[i]).user_id == user_id && events[i].symbol
                == symbol,
{
    if held_by(v, user_id, symbol) is Some {
        assert(v.positions.contains_key((user_id, symbol)));
        assert(engine::exposed(v, user_id));
    }
}

/// Margin is granted where the account is there, may trade and has it
/// available, and then moves from available to waiting; nothing else changes.
pub proof fn law_margin_is_granted_where_available(v: RiskView, user_id: i64, margin: i64)
    ensures
        engine::reservation(v, user_id, margin) is Ok <==> v.accounts.contains_key(user_id) && (
        v.accounts[user_id].status == RiskStatus::Normal || v.accounts[user_id].status
            == RiskStatus::MarginCall) && margin <= v.accounts[user_id].available_margin,
        engine::reservation(v, user_id, margin) matches Ok(m) ==> m == margin,
        engine::reservation(v, user_id, margin) matches Err(e) ==> {
            &&& e == engine::MarginError::AccountNotFound <==> !v.accounts.contains_key(user_id)
            &&& e == engine::MarginError::InsufficientMargin <==> v.accounts.contains_key(user_id)
                && (v.accounts[user_id].status == RiskStatus::Normal || v.accounts[user_id].status
                == RiskStatus::MarginCall)
        },
        engine::reservation(v, user_id, margin) is Ok && margin >= 0
            && v.accounts[user_id].available_margin >= 0 && v.accounts[user_id].order_margin
            + margin <= i64::MAX && v.accounts[user_id].order_margin >= 0 ==> {
            let w = engine::reserved(v, user_id, margin);
            let a = v.accounts[user_id];
            &&& w.accounts[user_id] == (AccountRiskState {
                available_margin: w.accounts[user_id].available_margin,
                order_margin: w.accounts[user_id].order_margin,
                ..a
            })
            &&& w.accounts[user_id].available_margin == a.available_margin - margin
            &&& w.accounts[user_id].order_margin == a.order_margin + margin
            &&& forall|u: i64| u != user_id ==> #[trigger] w.accounts[u] == v.accounts[u]
            &&& w.positions == v.positions && w.fund == v.fund && w.marks == v.marks
        },
{
}

/// Cash moves equity and what is available alike and nothing else.
pub proof fn law_cash_moves_one_account(v: RiskView, user_id: i64, delta: i64)
    requires
        v.accounts.contains_key(user_id),
        money::fits_i64(v.accounts[user_id].equity + delta),
        money::fits_i64(v.accounts[user_id].available_margin + delta),
    ensures
        ({
            let w = engine::cash_moved(v, user_id, delta);
            let a = v.accounts[user_id];
            let b = w.accounts[user_id];
            &&& b.equity == a.equity + delta
            &&& b.available_margin == a.available_margin + delta
            &&& b == (AccountRiskState {
                equity: b.equity,
                available_margin: b.available_margin,
                ..a
            })
            &&& forall|u: i64| u != user_id ==> #[trigger] w.accounts[u] == v.accounts[u]
            &&& w.positions == v.positions && w.fund == v.fund && w.marks == v.marks
        }),
{
}

/// A positive cap lets through exactly what stays at or below it together with
/// what is held; without a positive cap everything passes. The largest cap caps
/// nothing.
pub proof fn law_cap_counts_what_is_held(held: int, additional: int, cap: i64)
    ensures
        0 < cap < i64::MAX ==> (engine::exceeds(held, additional, cap as int) <==> held + additional
            > cap),
        cap <= 0 || cap == i64::MAX ==> !engine::exceeds(held, additional, cap as int),
{
}

/// Of a symbol for which nothing was ever booked nothing is open.
pub proof fn law_nothing_is_open_before_the_first_fill(m: Map<Symbol, i64>, symbol: Symbol, lots: i64)
    ensures
        !m.contains_key(symbol) ==> engine::entry_or_zero(m, symbol) == 0,
        engine::entry_or_zero(m.insert(symbol, lots), symbol) == lots,
{
}

/// A new account has all of its money at its disposal: nothing is bound, nothing
/// is open, nothing has to be kept, and it may trade.
pub proof fn law_new_account_is_free(user_id: i64, balance: i64)
    ensures
        ({
            let a = AccountRiskState::fresh(user_id, balance);
            &&& a.user_id == user_id
            &&& a.equity == balance && a.available_margin == balance
            &&& a.order_margin == 0 && a.used_margin == 0
            &&& a.maintenance_margin == 0 && a.unrealized_pnl == 0
            &&& a.status == RiskStatus::Normal && a.may_trade()
            &&& a.equity == a.available_margin + a.order_margin + a.used_margin + a.unrealized_pnl
        }),
{
}

} // verus!
