//! What follows when an engine has matched an order here: which fills are
//! settled, what is given back and what is told. Over the life of an order all
//! that was set aside for it is used or given back.
use crate::money;
use crate::money::AmountAtoms;
use crate::order::{OrderStatus, Side};
use crate::order_entry;
use crate::order_entry::{EngineFill, FillPlan, Outcome};
use crate::order_state;
use crate::order_state::{DbOrderStatus, WsOrderStatus};
use crate::symbol_rules;
use crate::symbol_rules::SymbolRules;
use vstd::prelude::*;

verus! {

/// The way an order came in.
#[derive(Debug, Clone, Copy, PartialEq, Eq, Structural)]
pub enum Interface {
    Request,
    Socket,
}

/// An order that an engine was given.
#[derive(Debug)]
pub struct MatchedOrder {
    pub id: i64,
    pub user_id: i64,
    pub symbol: String,
    pub side: Side,
    pub price: Option<AmountAtoms>,
    pub quantity: AmountAtoms,
    /// The best price on offer before the match, where it was asked for.
    pub best: Option<AmountAtoms>,
    pub base: String,
    pub quote: String,
}

/// What an engine did with an order.
#[derive(Debug)]
pub struct MatchResult {
    pub status: OrderStatus,
    pub filled_lots: i64,
    pub fills: Vec<EngineFill>,
}

impl MatchedOrder {
    pub open spec fn rules(&self) -> SymbolRules {
        symbol_rules::rules_of(self.symbol@)
    }

    /// The price that backs what the order has set aside.
    pub open spec fn backing(&self) -> AmountAtoms {
        order_entry::backing_price(self.side, self.price, self.best)
    }

    /// The plan for one fill.
    pub open spec fn plan(&self, fill: EngineFill, maker: Option<i64>) -> Option<FillPlan> {
        order_entry::fill_plan(
            self.side,
            self.user_id,
            self.id,
            fill.maker_order_id as i64,
            maker,
            self.price,
            self.rules(),
            fill.price_ticks,
            fill.quantity_lots,
        )
    }

    /// The limit, else the best price on offer, else nothing.
    pub open spec fn reference_price(&self) -> AmountAtoms {
        order_entry::backing_price(Side::Buy, self.price, self.best)
    }
}

/// The maker of a fill, where it is known.
pub open spec fn maker_of(makers: Seq<Option<i64>>, i: int) -> Option<i64> {
    if 0 <= i < makers.len() {
        makers[i]
    } else {
        None
    }
}

/// The plans for fills, in their order. Fills of nothing are passed over.
pub open spec fn plans_of(
    order: MatchedOrder,
    fills: Seq<EngineFill>,
    makers: Seq<Option<i64>>,
) -> Seq<FillPlan>
    decreases fills.len(),
{
    if fills.len() == 0 {
        seq![]
    } else {
        let before = plans_of(order, fills.drop_last(), makers);
        match order.plan(fills.last(), maker_of(makers, fills.len() - 1)) {
            Some(p) => before.push(p),
            None => before,
        }
    }
}

/// Plans the fills of an order. `makers` are the owners of the orders that it
/// was filled against.
pub fn plan_fills(order: &MatchedOrder, fills: &Vec<EngineFill>, makers: &Vec<Option<i64>>) -> (r:
    Vec<FillPlan>)
    ensures
        r@ == plans_of(*order, fills@, makers@),
{
    let rules = SymbolRules::for_symbol(order.symbol.as_str());
    let mut out: Vec<FillPlan> = Vec::new();
    let mut i: usize = 0;
    proof {
        assert(fills@.take(0) =~= seq![]);
    }
    while i < fills.len()
        invariant
            i <= fills@.len(),
            rules == order.rules(),
            rules.wf(),
            out@ == plans_of(*order, fills@.take(i as int), makers@),
        decreases fills@.len() - i,
    {
        proof {
            assert(fills@.take(i + 1).drop_last() =~= fills@.take(i as int));
            assert(fills@.take(i + 1).last() == fills@[i as int]);
        }
        let maker: Option<i64> = if i < makers.len() {
            makers[i]
        } else {
            None
        };
        let plan = order_entry::plan_fill(
            order.side,
            order.user_id,
            order.id,
            fills[i].maker_order_id as i64,
            maker,
            order.price,
            &rules,
            fills[i].price_ticks,
            fills[i].quantity_lots,
        );
        if let Some(p) = plan {
            out.push(p);
        }
        i = i + 1;
    }
    proof {
        assert(fills@.take(i as int) =~= fills@);
    }
    out
}

/// The price that a match is shown at: the average over its fills, or the
/// reference price where there are none.
pub open spec fn shown_price(
    order: MatchedOrder,
    fills: Seq<EngineFill>,
    filled: AmountAtoms,
) -> AmountAtoms {
    if fills.len() == 0 {
        order.reference_price()
    } else {
        match order_entry::average_price(fills, order.rules(), filled) {
            Some(p) => p,
            None => AmountAtoms(0),
        }
    }
}

fn compute_shown_price(order: &MatchedOrder, fills: &Vec<EngineFill>, filled: AmountAtoms) -> (r:
    AmountAtoms)
    ensures
        r == shown_price(*order, fills@, filled),
{
    if fills.len() == 0 {
        return order_entry::compute_backing_price(Side::Buy, order.price, order.best);
    }
    let rules = SymbolRules::for_symbol(order.symbol.as_str());
    match order_entry::average_fill_price(fills, &rules, filled) {
        Some(p) => p,
        None => AmountAtoms::zero(),
    }
}

/// What is done after a match.
#[derive(Debug)]
pub struct MatchPlan {
    /// The engine took nothing: the order is refused.
    pub refused: bool,
    /// The status of the order's row.
    pub status: DbOrderStatus,
    pub filled: AmountAtoms,
    pub fills: Vec<FillPlan>,
    /// What is given back of what was set aside.
    pub release: Option<(String, AmountAtoms)>,
    /// The price at which a trade is published, where one is.
    pub trade: Option<AmountAtoms>,
    /// The book has changed and is published.
    pub depth: bool,
    /// What the owner is told: the status, and the price of what was filled.
    pub told: Option<(WsOrderStatus, AmountAtoms)>,
}

#[verifier::ext_equal]
pub struct PlanView {
    pub refused: bool,
    pub status: DbOrderStatus,
    pub filled: AmountAtoms,
    pub fills: Seq<FillPlan>,
    pub release: Option<(Seq<char>, AmountAtoms)>,
    pub trade: Option<AmountAtoms>,
    pub depth: bool,
    pub told: Option<(WsOrderStatus, AmountAtoms)>,
}

impl MatchPlan {
    pub open spec fn view(&self) -> PlanView {
        PlanView {
            refused: self.refused,
            status: self.status,
            filled: self.filled,
            fills: self.fills@,
            release: order_entry::named_option(self.release),
            trade: self.trade,
            depth: self.depth,
            told: self.told,
        }
    }
}

/// The quantity that was filled.
pub open spec fn filled_of(order: MatchedOrder, lots: i64) -> AmountAtoms {
    order_entry::units_amount(lots as int, order.rules().quantity_step_atoms as int)
}

/// The quantity whose funds are given back.
pub open spec fn returned_quantity(
    order: MatchedOrder,
    status: OrderStatus,
    filled: AmountAtoms,
    via: Interface,
) -> AmountAtoms {
    match via {
        Interface::Request => order_entry::closed_quantity(status, order.quantity, filled),
        Interface::Socket => order_entry::released_quantity(
            order_entry::outcome(status, order.quantity, filled),
            order.quantity,
        ),
    }
}

/// The price by which funds are given back. On a socket a part of a market buy
/// that found no price on offer goes by the price of its fills.
pub open spec fn returned_price(
    order: MatchedOrder,
    result_status: OrderStatus,
    shown: AmountAtoms,
    filled: AmountAtoms,
    via: Interface,
) -> AmountAtoms {
    if via == Interface::Socket && result_status != OrderStatus::Rejected && filled.0 > 0
        && order.price is None && order.best is None {
        shown
    } else {
        order.backing()
    }
}

/// What is done after a match, by the way in which the order came.
pub open spec fn plan_of(
    order: MatchedOrder,
    result: MatchResult,
    makers: Seq<Option<i64>>,
    via: Interface,
) -> PlanView {
    let filled = filled_of(order, result.filled_lots);
    let refused = result.status == OrderStatus::Rejected;
    let shown = shown_price(order, result.fills@, filled);
    let matched = !refused && filled.0 > 0;
    let resting = !refused && filled.0 <= 0 && result.status == OrderStatus::Accepted;
    PlanView {
        refused,
        status: order_state::db_status_of_engine(result.status),
        filled,
        fills: if refused || (via == Interface::Socket && !matched) {
            seq![]
        } else {
            plans_of(order, result.fills@, makers)
        },
        release: order_entry::release(
            order.side,
            returned_price(order, result.status, shown, filled, via),
            returned_quantity(order, result.status, filled, via),
            order.base@,
            order.quote@,
        ),
        trade: if matched {
            Some(shown)
        } else {
            None
        },
        depth: !refused && (via == Interface::Request || matched || resting),
        told: if refused {
            None
        } else {
            match via {
                Interface::Request => Some(
                    (order_state::ws_status_of_engine(result.status, false), AmountAtoms(0)),
                ),
                Interface::Socket => if matched {
                    Some((order_state::ws_status_of_engine(result.status, true), shown))
                } else if resting {
                    Some((WsOrderStatus::Open, AmountAtoms(0)))
                } else {
                    Some((WsOrderStatus::Canceled, AmountAtoms(0)))
                },
            }
        },
    }
}

/// Plans what is done after a match.
pub fn plan_match(
    order: &MatchedOrder,
    result: &MatchResult,
    makers: &Vec<Option<i64>>,
    via: Interface,
) -> (r: MatchPlan)
    ensures
        r.view() == plan_of(*order, *result, makers@, via),
{
    let rules = SymbolRules::for_symbol(order.symbol.as_str());
    let filled = order_entry::compute_units(result.filled_lots, rules.quantity_step_atoms);
    let refused = result.status == OrderStatus::Rejected;
    let shown = compute_shown_price(order, &result.fills, filled);
    let matched = !refused && filled.atoms() > 0;
    let resting = !refused && filled.atoms() <= 0 && result.status == OrderStatus::Accepted;
    let fills = if refused || (via == Interface::Socket && !matched) {
        Vec::new()
    } else {
        plan_fills(order, &result.fills, makers)
    };
    let quantity = match via {
        Interface::Request => order_entry::compute_closed_quantity(
            result.status,
            order.quantity,
            filled,
        ),
        Interface::Socket => match order_entry::decide_outcome(
            result.status,
            order.quantity,
            filled,
        ) {
            Outcome::Filled { released } => released,
            Outcome::Resting => AmountAtoms::zero(),
            Outcome::Rejected => order.quantity,
            Outcome::Ended => order.quantity,
        },
    };
    let price = if via == Interface::Socket && !refused && filled.atoms() > 0
        && order.price.is_none() && order.best.is_none() {
        shown
    } else {
        order_entry::compute_backing_price(order.side, order.price, order.best)
    };
    let release = order_entry::compute_release(
        order.side,
        price,
        quantity,
        order.base.as_str(),
        order.quote.as_str(),
    );
    let told = if refused {
        None
    } else {
        match via {
            Interface::Request => Some(
                (order_state::ws_status_from_engine(result.status, false), AmountAtoms::zero()),
            ),
            Interface::Socket => if matched {
                Some((order_state::ws_status_from_engine(result.status, true), shown))
            } else if resting {
                Some((WsOrderStatus::Open, AmountAtoms::zero()))
            } else {
                Some((WsOrderStatus::Canceled, AmountAtoms::zero()))
            },
        }
    };
    let r = MatchPlan {
        refused,
        status: order_state::db_status_from_engine(result.status),
        filled,
        fills,
        release,
        trade: if matched {
            Some(shown)
        } else {
            None
        },
        depth: !refused && (via == Interface::Request || matched || resting),
        told,
    };
    proof {
        assert(r.view().fills =~= plan_of(*order, *result, makers@, via).fills);
    }
    r
}

/// What a fill takes of the funds that its order has set aside, with what is
/// given back for a better price.
pub open spec fn taken(side: Side, p: FillPlan) -> int {
    match side {
        Side::Buy => money::scaled_product(p.price.0 as int, p.quantity.0 as int)
            + p.over_release.0,
        Side::Sell => p.quantity.0 as int,
    }
}

pub open spec fn total_taken(side: Side, plans: Seq<FillPlan>) -> int
    decreases plans.len(),
{
    if plans.len() == 0 {
        0
    } else {
        total_taken(side, plans.drop_last()) + taken(side, plans.last())
    }
}

/// The lots of all fills.
pub open spec fn lots_of(fills: Seq<EngineFill>) -> int
    decreases fills.len(),
{
    if fills.len() == 0 {
        0
    } else {
        lots_of(fills.drop_last()) + fills.last().quantity_lots
    }
}

/// What an order sets aside for a part of its quantity.
pub open spec fn set_aside_for(order: MatchedOrder, quantity: int) -> int {
    match order.side {
        Side::Buy => money::scaled_product(order.backing().0 as int, quantity),
        Side::Sell => quantity,
    }
}

/// A fill of something, within the limit of the order, against a maker who is
/// known.
pub open spec fn sound_fill(order: MatchedOrder, fill: EngineFill, maker: Option<i64>) -> bool {
    let rules = order.rules();
    &&& fill.price_ticks > 0
    &&& fill.quantity_lots > 0
    &&& money::fits_i64(fill.price_ticks * rules.price_tick_atoms)
    &&& money::fits_i64(fill.quantity_lots * rules.quantity_step_atoms)
    &&& maker matches Some(m) && m > 0
    &&& order.side == Side::Buy ==> fill.price_ticks * rules.price_tick_atoms <= order.backing().0
}

pub open spec fn sound_fills(
    order: MatchedOrder,
    fills: Seq<EngineFill>,
    makers: Seq<Option<i64>>,
) -> bool {
    forall|i: int|
        0 <= i < fills.len() ==> sound_fill(order, #[trigger] fills[i], maker_of(makers, i))
}

/// An order on the grid of its symbol: a sell, or a buy with a limit whose
/// cost can be set aside.
pub open spec fn on_grid(order: MatchedOrder) -> bool {
    let rules = order.rules();
    &&& order.user_id > 0
    &&& order.quantity.0 > 0
    &&& order.quantity.0 % rules.quantity_step_atoms == 0
    &&& order.side == Side::Buy ==> {
        &&& order.price matches Some(l) && l.0 > 0 && l.0 % rules.price_tick_atoms == 0
        &&& money::fits_i64(
            money::scaled_product(order.backing().0 as int, order.quantity.0 as int),
        )
    }
}

proof fn lemma_product_grows(a: int, b: int, c: int, d: int)
    requires
        0 <= a <= c,
        0 <= b <= d,
    ensures
        0 <= money::scaled_product(a, b) <= money::scaled_product(c, d),
{
    let scale = money::AMOUNT_SCALE as int;
    assert(0 <= a * b <= c * d) by (nonlinear_arith)
        requires
            0 <= a <= c,
            0 <= b <= d,
    ;
    vstd::arithmetic::div_mod::lemma_div_is_ordered(a * b + scale / 2, c * d + scale / 2, scale);
    vstd::arithmetic::div_mod::lemma_div_is_ordered(0, a * b + scale / 2, scale);
}

proof fn lemma_on_grid(units: int, grid: int)
    requires
        grid > 0,
    ensures
        (units * grid) % grid == 0,
{
    vstd::arithmetic::div_mod::lemma_mod_multiples_basic(units, grid);
}

proof fn lemma_lots_not_negative(
    order: MatchedOrder,
    fills: Seq<EngineFill>,
    makers: Seq<Option<i64>>,
)
    requires
        sound_fills(order, fills, makers),
    ensures
        lots_of(fills) >= 0,
        fills.len() > 0 ==> lots_of(fills) > 0,
    decreases fills.len(),
{
    if fills.len() > 0 {
        let rest = fills.drop_last();
        assert forall|i: int| 0 <= i < rest.len() implies sound_fill(
            order,
            #[trigger] rest[i],
            maker_of(makers, i),
        ) by {
            assert(rest[i] == fills[i]);
        }
        lemma_lots_not_negative(order, rest, makers);
        assert(sound_fill(order, fills[fills.len() - 1], maker_of(makers, fills.len() - 1)));
    }
}

/// Fills take exactly what was set aside for the quantity that they fill.
proof fn lemma_fills_take_their_part(
    order: MatchedOrder,
    fills: Seq<EngineFill>,
    makers: Seq<Option<i64>>,
)
    requires
        on_grid(order),
        sound_fills(order, fills, makers),
        lots_of(fills) * order.rules().quantity_step_atoms <= order.quantity.0,
    ensures
        total_taken(order.side, plans_of(order, fills, makers)) == set_aside_for(
            order,
            lots_of(fills) * order.rules().quantity_step_atoms,
        ),
    decreases fills.len(),
{
    let rules = order.rules();
    let tick = rules.price_tick_atoms as int;
    let step = rules.quantity_step_atoms as int;
    order_entry::law_grids_are_exact(order.symbol@);
    if fills.len() == 0 {
        assert(lots_of(fills) * step == 0) by (nonlinear_arith)
            requires
                lots_of(fills) == 0,
        ;
        if order.side == Side::Buy {
            let limit = order.backing().0 as int;
            assert(limit * 0 == 0) by (nonlinear_arith);
        }
    } else {
        let rest = fills.drop_last();
        let last = fills.last();
        let at = fills.len() - 1;
        assert forall|i: int| 0 <= i < rest.len() implies sound_fill(
            order,
            #[trigger] rest[i],
            maker_of(makers, i),
        ) by {
            assert(rest[i] == fills[i]);
        }
        assert(sound_fill(order, fills[at], maker_of(makers, at)));
        lemma_lots_not_negative(order, rest, makers);
        let before = lots_of(rest) * step;
        let part = last.quantity_lots * step;
        assert(lots_of(fills) * step == before + part) by (nonlinear_arith)
            requires
                lots_of(fills) == lots_of(rest) + last.quantity_lots,
                before == lots_of(rest) * step,
                part == last.quantity_lots * step,
        ;
        assert(before >= 0 && part > 0) by (nonlinear_arith)
            requires
                before == lots_of(rest) * step,
                part == last.quantity_lots * step,
                lots_of(rest) >= 0,
                last.quantity_lots > 0,
                step > 0,
        ;
        lemma_fills_take_their_part(order, rest, makers);
        let plan = order.plan(last, maker_of(makers, at))->0;
        let plans = plans_of(order, fills, makers);
        assert(plans == plans_of(order, rest, makers).push(plan));
        assert(plans.drop_last() =~= plans_of(order, rest, makers));
        lemma_on_grid(last.quantity_lots as int, step);
        lemma_on_grid(lots_of(rest), step);
        if order.side == Side::Buy {
            let limit = order.backing().0 as int;
            let price = last.price_ticks * tick;
            lemma_on_grid(last.price_ticks as int, tick);
            assert(price > 0) by (nonlinear_arith)
                requires
                    price == last.price_ticks * tick,
                    last.price_ticks > 0,
                    tick > 0,
            ;
            assert(plan.price.0 == price && plan.quantity.0 == part);
            lemma_product_grows(limit - price, part, limit, order.quantity.0 as int);
            assert(plan.over_release.0 == money::scaled_product(limit - price, part)) by {
                if limit == price {
                    assert(0 * part == 0) by (nonlinear_arith);
                }
            }
            order_entry::law_fill_uses_its_reservation(rules, limit, price, part);
            order_entry::law_reservation_splits(rules, limit, before, part);
        }
    }
}

/// Over the life of an order nothing of what was set aside for it is lost or
/// taken twice: what its fills took and what is given back make up all of it
/// once the order is closed, and what is left while it is open is what backs
/// the rest of its quantity.
pub proof fn law_order_uses_what_it_set_aside(
    order: MatchedOrder,
    result: MatchResult,
    makers: Seq<Option<i64>>,
    via: Interface,
)
    requires
        on_grid(order),
        sound_fills(order, result.fills@, makers),
        result.filled_lots == lots_of(result.fills@),
        result.filled_lots * order.rules().quantity_step_atoms <= order.quantity.0,
        result.status == OrderStatus::Filled ==> result.filled_lots
            * order.rules().quantity_step_atoms == order.quantity.0,
        result.status == OrderStatus::PartiallyFilled ==> result.fills@.len() > 0,
        result.status == OrderStatus::Rejected ==> result.fills@.len() == 0,
    ensures
        ({
            let plan = plan_of(order, result, makers, via);
            let reserved = order_entry::reservation(
                order.side,
                order.backing(),
                order.quantity,
                order.base@,
                order.quote@,
            );
            let rest = set_aside_for(order, order.quantity.0 - plan.filled.0);
            let open = result.status == OrderStatus::Accepted || result.status
                == OrderStatus::PartiallyFilled;
            &&& reserved is Ok
            &&& total_taken(order.side, plan.fills) + rest == (reserved->Ok_0).1.0
            &&& open ==> plan.release is None
            &&& !open ==> match plan.release {
                Some((asset, amount)) => asset == (reserved->Ok_0).0 && amount.0 == rest,
                None => rest == 0,
            }
        }),
{
    let rules = order.rules();
    let step = rules.quantity_step_atoms as int;
    let fills = result.fills@;
    let plan = plan_of(order, result, makers, via);
    let filled = result.filled_lots * step;
    let left = order.quantity.0 - filled;
    order_entry::law_grids_are_exact(order.symbol@);
    lemma_lots_not_negative(order, fills, makers);
    lemma_fills_take_their_part(order, fills, makers);
    assert(filled >= 0) by (nonlinear_arith)
        requires
            filled == result.filled_lots * step,
            result.filled_lots >= 0,
            step > 0,
    ;
    assert(plan.filled.0 == filled);
    if filled == 0 {
        assert(result.filled_lots == 0) by (nonlinear_arith)
            requires
                filled == result.filled_lots * step,
                filled == 0,
                step > 0,
        ;
        assert(fills.len() == 0);
    }
    assert(plan.fills =~= plans_of(order, fills, makers));
    lemma_on_grid(result.filled_lots as int, step);
    assert(left % step == 0) by {
        vstd::arithmetic::div_mod::lemma_sub_mod_noop(order.quantity.0 as int, filled, step);
        vstd::arithmetic::div_mod::lemma_small_mod(0, step as nat);
    }
    if order.side == Side::Buy {
        let limit = order.backing().0 as int;
        order_entry::lemma_product_sign(limit, order.quantity.0 as int);
        order_entry::law_reservation_splits(rules, limit, filled, left);
        lemma_product_grows(limit, left, limit, order.quantity.0 as int);
        if left == 0 {
            assert(limit * 0 == 0) by (nonlinear_arith);
        }
    }
}

/// A plan says what became of the order: it is refused where the engine refused
/// it, shows as filled the lots that the engine filled, publishes a trade only
/// where something was filled, and the stored status is open exactly while the
/// order is. A trade is shown at a price among those of its fills.
pub proof fn law_plan_says_what_happened(
    order: MatchedOrder,
    result: MatchResult,
    makers: Seq<Option<i64>>,
    via: Interface,
    low: int,
    high: int,
)
    requires
        money::fits_i64(result.filled_lots * order.rules().quantity_step_atoms),
    ensures
        ({
            let plan = plan_of(order, result, makers, via);
            &&& plan.refused <==> result.status == OrderStatus::Rejected
            &&& plan.filled.0 == result.filled_lots * order.rules().quantity_step_atoms
            &&& plan.trade is Some <==> !plan.refused && result.filled_lots > 0
            &&& plan.refused ==> plan.fills.len() == 0 && plan.told is None && !plan.depth
            &&& plan.status.open() <==> result.status == OrderStatus::Accepted || result.status
                == OrderStatus::PartiallyFilled
            &&& plan.status == DbOrderStatus::Completed <==> result.status == OrderStatus::Filled
            &&& result.filled_lots > 0 && !plan.refused ==> plan.depth
            &&& !plan.refused ==> plan.told is Some
            &&& 0 <= low && result.fills@.len() > 0 && result.filled_lots > 0 && (forall|i: int|
                0 <= i < result.fills@.len() ==> low <= (#[trigger] result.fills@[i]).price_ticks
                    <= high && result.fills@[i].quantity_lots >= 0 && money::fits_i64(
                    result.fills@[i].price_ticks * order.rules().price_tick_atoms,
                ) && money::fits_i64(
                    result.fills@[i].quantity_lots * order.rules().quantity_step_atoms,
                )) && order_entry::fill_quantity(result.fills@, order.rules()) == plan.filled.0
                && order_entry::average_price(result.fills@, order.rules(), plan.filled) is Some
                ==> (plan.trade matches Some(p) ==> low * order.rules().price_tick_atoms <= p.0
                <= high * order.rules().price_tick_atoms)
        }),
{
    let rules = order.rules();
    let plan = plan_of(order, result, makers, via);
    let step = rules.quantity_step_atoms as int;
    assert(result.filled_lots * step > 0 <==> result.filled_lots > 0) by (nonlinear_arith)
        requires
            step > 0,
    ;
    if 0 <= low && result.fills@.len() > 0 && result.filled_lots > 0 && (forall|i: int|
        0 <= i < result.fills@.len() ==> low <= (#[trigger] result.fills@[i]).price_ticks <= high
            && result.fills@[i].quantity_lots >= 0 && money::fits_i64(
            result.fills@[i].price_ticks * rules.price_tick_atoms,
        ) && money::fits_i64(result.fills@[i].quantity_lots * rules.quantity_step_atoms))
        && order_entry::fill_quantity(result.fills@, rules) == plan.filled.0 {
        order_entry::law_average_lies_among_the_fills(result.fills@, rules, low, high);
        assert(AmountAtoms(order_entry::fill_quantity(result.fills@, rules) as i64) == plan.filled);
    }
}

/// Every fill of the engine with a price and lots becomes a fill of the plan,
/// in order, with its maker.
pub proof fn law_plan_has_every_fill(
    order: MatchedOrder,
    fills: Seq<EngineFill>,
    makers: Seq<Option<i64>>,
    i: int,
)
    requires
        0 <= i < fills.len(),
        forall|k: int|
            0 <= k < fills.len() ==> (#[trigger] fills[k]).price_ticks > 0 && fills[k].quantity_lots
                > 0,
    ensures
        plans_of(order, fills, makers).len() == fills.len(),
        ({
            let p = plans_of(order, fills, makers)[i];
            let maker: int = if i < makers.len() && makers[i] is Some {
                makers[i]->0 as int
            } else {
                0
            };
            &&& money::fits_i64(fills[i].price_ticks * order.rules().price_tick_atoms)
                ==> p.price.0 == fills[i].price_ticks * order.rules().price_tick_atoms
            &&& money::fits_i64(fills[i].quantity_lots * order.rules().quantity_step_atoms)
                ==> p.quantity.0 == fills[i].quantity_lots * order.rules().quantity_step_atoms
            &&& order.side == Side::Buy ==> p.buyer_id == order.user_id && p.seller_id == maker
                && p.buy_order_id == order.id
            &&& order.side == Side::Sell ==> p.seller_id == order.user_id && p.buyer_id == maker
                && p.sell_order_id == order.id
        }),
    decreases fills.len(),
{
    let d = fills.drop_last();
    assert forall|k: int| 0 <= k < d.len() implies (#[trigger] d[k]).price_ticks > 0
        && d[k].quantity_lots > 0 by {
        assert(d[k] == fills[k]);
    }
    assert(fills[fills.len() - 1].price_ticks > 0);
    reveal_with_fuel(plans_of, 2);
    if d.len() > 0 {
        law_plan_has_every_fill(
            order,
            d,
            makers,
            if i < d.len() {
                i
            } else {
                0
            },
        );
    }
    if i < d.len() {
        assert(d[i] == fills[i]);
        assert(plans_of(order, fills, makers)[i] == plans_of(order, d, makers)[i]);
    }
}

/// Without a fill an order is shown at its limit, else at the best price on
/// offer, else at nothing.
pub proof fn law_unfilled_order_is_shown_at_its_limit(order: MatchedOrder, filled: AmountAtoms)
    ensures
        ({
            let shown = shown_price(order, seq![], filled);
            &&& (order.price matches Some(p) ==> shown == p)
            &&& order.price is None ==> (order.best matches Some(b) ==> shown == b)
            &&& order.price is None && order.best is None ==> shown.0 == 0
        }),
{
}

/// With fills an order is shown at their average, or at nothing where none can
/// be taken.
pub proof fn law_filled_order_is_shown_at_the_average(
    order: MatchedOrder,
    fills: Seq<EngineFill>,
    filled: AmountAtoms,
)
    requires
        fills.len() > 0,
    ensures
        order_entry::average_price(fills, order.rules(), filled) is Some ==> Some(
            shown_price(order, fills, filled),
        ) == order_entry::average_price(fills, order.rules(), filled),
        order_entry::average_price(fills, order.rules(), filled) is None ==> shown_price(
            order,
            fills,
            filled,
        ).0 == 0,
{
}

} // verus!
