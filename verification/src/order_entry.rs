//! What an order sets aside, what its fills use of that and what is given back:
//! the arithmetic that every way of placing and cancelling orders shares.
use crate::maps;
use crate::maps::{
    balances_get, balances_has, balances_insert, balances_list, balances_new, balances_remove,
};
use crate::money;
use crate::money::{AccountBalance, AmountAtoms};
use crate::order::{OrderStatus, Side, TimeInForce};
use crate::symbol_rules;
use crate::symbol_rules::SymbolRules;
use crate::text;
use crate::text_map;
use crate::text_map::TextMap;
use dashmap::DashMap;
use vstd::prelude::*;

verus! {

pub open spec fn side_of(s: Seq<char>) -> Option<Side> {
    if s == "buy"@ {
        Some(Side::Buy)
    } else if s == "sell"@ {
        Some(Side::Sell)
    } else {
        None
    }
}

pub fn parse_side(s: &str) -> (r: Option<Side>)
    ensures
        r == side_of(s@),
{
    if text::str_eq(s, "buy") {
        Some(Side::Buy)
    } else if text::str_eq(s, "sell") {
        Some(Side::Sell)
    } else {
        None
    }
}

/// How long an order of a type stays in force.
pub open spec fn order_type_tif(order_type: Seq<char>) -> Option<TimeInForce> {
    if order_type == "limit"@ || order_type == "gtc"@ {
        Some(TimeInForce::GTC)
    } else if order_type == "ioc"@ || order_type == "market"@ {
        Some(TimeInForce::IOC)
    } else if order_type == "fok"@ {
        Some(TimeInForce::FOK)
    } else if order_type == "post_only"@ {
        Some(TimeInForce::PostOnly)
    } else {
        None
    }
}

pub fn parse_order_type(order_type: &str) -> (r: Option<TimeInForce>)
    ensures
        r == order_type_tif(order_type@),
{
    if text::str_eq(order_type, "limit") || text::str_eq(order_type, "gtc") {
        Some(TimeInForce::GTC)
    } else if text::str_eq(order_type, "ioc") || text::str_eq(order_type, "market") {
        Some(TimeInForce::IOC)
    } else if text::str_eq(order_type, "fok") {
        Some(TimeInForce::FOK)
    } else if text::str_eq(order_type, "post_only") {
        Some(TimeInForce::PostOnly)
    } else {
        None
    }
}

/// The same where a time in force may come beside the type: it decides for the
/// types that name none.
pub open spec fn combined_tif(order_type: Seq<char>, tif: Option<Seq<char>>) -> Option<
    TimeInForce,
> {
    if order_type == "limit"@ || order_type == "gtc"@ {
        if tif == Some("ioc"@) {
            Some(TimeInForce::IOC)
        } else if tif == Some("fok"@) {
            Some(TimeInForce::FOK)
        } else if tif == Some("post_only"@) {
            Some(TimeInForce::PostOnly)
        } else {
            Some(TimeInForce::GTC)
        }
    } else {
        order_type_tif(order_type)
    }
}

pub fn parse_combined_tif(order_type: &str, tif: Option<&str>) -> (r: Option<TimeInForce>)
    ensures
        r == combined_tif(order_type@, text::opt_str(tif)),
{
    if text::str_eq(order_type, "limit") || text::str_eq(order_type, "gtc") {
        match tif {
            Some(t) => if text::str_eq(t, "ioc") {
                Some(TimeInForce::IOC)
            } else if text::str_eq(t, "fok") {
                Some(TimeInForce::FOK)
            } else if text::str_eq(t, "post_only") {
                Some(TimeInForce::PostOnly)
            } else {
                Some(TimeInForce::GTC)
            },
            None => Some(TimeInForce::GTC),
        }
    } else {
        parse_order_type(order_type)
    }
}

/// Base and quote of a symbol; a symbol without an underscore is both.
pub open spec fn assets_of(symbol: Seq<char>) -> (Seq<char>, Seq<char>) {
    match text::split_pair(symbol, '_') {
        Some(p) => p,
        None => (symbol, symbol),
    }
}

pub fn split_assets(symbol: &str) -> (r: (String, String))
    ensures
        (r.0@, r.1@) == assets_of(symbol@),
{
    match text::split_once(symbol, '_') {
        Some(p) => p,
        None => (text::owned(symbol), text::owned(symbol)),
    }
}

/// Base and quote of a symbol; bitcoin in dollars where it has no underscore.
pub open spec fn assets_or_default(symbol: Seq<char>) -> (Seq<char>, Seq<char>) {
    match text::split_pair(symbol, '_') {
        Some(p) => p,
        None => ("BTC"@, "USDT"@),
    }
}

pub fn split_assets_or_default(symbol: &str) -> (r: (String, String))
    ensures
        (r.0@, r.1@) == assets_or_default(symbol@),
{
    match text::split_once(symbol, '_') {
        Some(p) => p,
        None => (text::owned("BTC"), text::owned("USDT")),
    }
}

/// The price that backs the funds set aside: for a buy the limit, or else the
/// best price on offer; a sell needs none.
pub open spec fn backing_price(
    side: Side,
    price: Option<AmountAtoms>,
    best: Option<AmountAtoms>,
) -> AmountAtoms {
    match side {
        Side::Buy => match (price, best) {
            (Some(p), _) => p,
            (None, Some(b)) => b,
            (None, None) => AmountAtoms(0),
        },
        Side::Sell => AmountAtoms(0),
    }
}

pub fn compute_backing_price(
    side: Side,
    price: Option<AmountAtoms>,
    best: Option<AmountAtoms>,
) -> (r: AmountAtoms)
    ensures
        r == backing_price(side, price, best),
{
    match side {
        Side::Buy => match price {
            Some(p) => p,
            None => match best {
                Some(b) => b,
                None => AmountAtoms::zero(),
            },
        },
        Side::Sell => AmountAtoms::zero(),
    }
}

/// Why nothing could be set aside.
#[derive(Debug, Clone, Copy, PartialEq, Eq, Structural)]
pub enum ReserveError {
    /// A buy without any price to go by.
    NoPrice,
    /// More than an account can hold.
    TooLarge,
}

/// What an order sets aside: a sell its quantity of base, a buy its cost in
/// quote.
pub open spec fn reservation(
    side: Side,
    backing: AmountAtoms,
    quantity: AmountAtoms,
    base: Seq<char>,
    quote: Seq<char>,
) -> Result<(Seq<char>, AmountAtoms), ReserveError> {
    match side {
        Side::Sell => Ok((base, quantity)),
        Side::Buy => if backing.0 * quantity.0 <= 0 {
            Err(ReserveError::NoPrice)
        } else if !money::fits_i64(money::scaled_product(backing.0 as int, quantity.0 as int)) {
            Err(ReserveError::TooLarge)
        } else {
            Ok(
                (
                    quote,
                    AmountAtoms(
                        money::scaled_product(backing.0 as int, quantity.0 as int) as i64,
                    ),
                ),
            )
        },
    }
}

pub open spec fn named_amount(r: Result<(String, AmountAtoms), ReserveError>) -> Result<
    (Seq<char>, AmountAtoms),
    ReserveError,
> {
    match r {
        Ok((asset, amount)) => Ok((asset@, amount)),
        Err(e) => Err(e),
    }
}

/// A product is positive exactly where its factors have the same sign.
pub proof fn lemma_product_sign(a: int, b: int)
    ensures
        a * b > 0 <==> (a > 0 && b > 0) || (a < 0 && b < 0),
{
    assert(a * b > 0 <==> (a > 0 && b > 0) || (a < 0 && b < 0)) by (nonlinear_arith);
}

pub fn reserve(
    side: Side,
    backing: AmountAtoms,
    quantity: AmountAtoms,
    base: &str,
    quote: &str,
) -> (r: Result<(String, AmountAtoms), ReserveError>)
    ensures
        named_amount(r) == reservation(side, backing, quantity, base@, quote@),
{
    match side {
        Side::Sell => Ok((text::owned(base), quantity)),
        Side::Buy => {
            proof {
                lemma_product_sign(backing.0 as int, quantity.0 as int);
            }
            let positive = (backing.atoms() > 0 && quantity.atoms() > 0) || (backing.atoms() < 0
                && quantity.atoms() < 0);
            if !positive {
                return Err(ReserveError::NoPrice);
            }
            match backing.checked_mul_scaled(quantity) {
                Ok(amount) => Ok((text::owned(quote), amount)),
                Err(_) => Err(ReserveError::TooLarge),
            }
        },
    }
}

/// What is given back for the part of an order that will not be filled.
pub open spec fn release(
    side: Side,
    backing: AmountAtoms,
    remaining: AmountAtoms,
    base: Seq<char>,
    quote: Seq<char>,
) -> Option<(Seq<char>, AmountAtoms)> {
    if remaining.0 <= 0 {
        None
    } else {
        match side {
            Side::Sell => Some((base, remaining)),
            Side::Buy => if backing.0 <= 0 || !money::fits_i64(
                money::scaled_product(backing.0 as int, remaining.0 as int),
            ) {
                None
            } else {
                Some(
                    (
                        quote,
                        AmountAtoms(
                            money::scaled_product(backing.0 as int, remaining.0 as int) as i64,
                        ),
                    ),
                )
            },
        }
    }
}

pub open spec fn named_option(r: Option<(String, AmountAtoms)>) -> Option<
    (Seq<char>, AmountAtoms),
> {
    match r {
        Some((asset, amount)) => Some((asset@, amount)),
        None => None,
    }
}

pub fn compute_release(
    side: Side,
    backing: AmountAtoms,
    remaining: AmountAtoms,
    base: &str,
    quote: &str,
) -> (r: Option<(String, AmountAtoms)>)
    ensures
        named_option(r) == release(side, backing, remaining, base@, quote@),
{
    if remaining.atoms() <= 0 {
        return None;
    }
    match side {
        Side::Sell => Some((text::owned(base), remaining)),
        Side::Buy => {
            if backing.atoms() <= 0 {
                return None;
            }
            match backing.checked_mul_scaled(remaining) {
                Ok(amount) => Some((text::owned(quote), amount)),
                Err(_) => None,
            }
        },
    }
}

/// What is left of an order.
pub open spec fn remaining(quantity: AmountAtoms, filled: AmountAtoms) -> AmountAtoms {
    AmountAtoms(money::saturate_i64(quantity.0 - filled.0))
}

pub fn compute_remaining(quantity: AmountAtoms, filled: AmountAtoms) -> (r: AmountAtoms)
    ensures
        r == remaining(quantity, filled),
{
    AmountAtoms::from_atoms(money::saturating_difference(quantity.atoms(), filled.atoms()))
}

/// An order that is refused after funds were set aside gets exactly those back.
pub proof fn law_refusal_gives_everything_back(
    side: Side,
    backing: AmountAtoms,
    quantity: AmountAtoms,
    base: Seq<char>,
    quote: Seq<char>,
)
    requires
        quantity.0 > 0,
        reservation(side, backing, quantity, base, quote) is Ok,
    ensures
        release(side, backing, quantity, base, quote) == Some(
            reservation(side, backing, quantity, base, quote)->Ok_0,
        ),
{
    lemma_product_sign(backing.0 as int, quantity.0 as int);
}

/// An amount on both grids: a whole number of ticks times a whole number of
/// lots, where tick times lot is a whole number of atoms.
pub open spec fn exact_cost(rules: SymbolRules, price: int, quantity: int) -> bool {
    &&& rules.wf()
    &&& (rules.price_tick_atoms * rules.quantity_step_atoms) % (money::AMOUNT_SCALE as int) == 0
    &&& price % (rules.price_tick_atoms as int) == 0
    &&& quantity % (rules.quantity_step_atoms as int) == 0
}

proof fn lemma_exact_product(rules: SymbolRules, price: int, quantity: int)
    requires
        exact_cost(rules, price, quantity),
    ensures
        money::scaled_product(price, quantity) * (money::AMOUNT_SCALE as int) == price * quantity,
{
    let tick = rules.price_tick_atoms as int;
    let lot = rules.quantity_step_atoms as int;
    let scale = money::AMOUNT_SCALE as int;
    let a = price / tick;
    let b = quantity / lot;
    let c = (tick * lot) / scale;
    vstd::arithmetic::div_mod::lemma_fundamental_div_mod(price, tick);
    vstd::arithmetic::div_mod::lemma_fundamental_div_mod(quantity, lot);
    vstd::arithmetic::div_mod::lemma_fundamental_div_mod(tick * lot, scale);
    assert(price * quantity == scale * (c * (a * b))) by (nonlinear_arith)
        requires
            price == tick * a,
            quantity == lot * b,
            tick * lot == scale * c,
    ;
    let n = c * (a * b);
    assert((scale * n + scale / 2) / scale == n) by {
        vstd::arithmetic::div_mod::lemma_fundamental_div_mod_converse(
            scale * n + scale / 2,
            scale,
            n,
            scale / 2,
        );
    }
}

/// A fill of a limit buy uses, with what is given back for the better price,
/// exactly what the order had set aside for the quantity filled.
pub proof fn law_fill_uses_its_reservation(
    rules: SymbolRules,
    limit: int,
    fill: int,
    quantity: int,
)
    requires
        exact_cost(rules, limit, quantity),
        exact_cost(rules, fill, quantity),
        fill <= limit,
    ensures
        money::scaled_product(fill, quantity) + money::scaled_product(limit - fill, quantity)
            == money::scaled_product(limit, quantity),
{
    let tick = rules.price_tick_atoms as int;
    vstd::arithmetic::div_mod::lemma_fundamental_div_mod(limit, tick);
    vstd::arithmetic::div_mod::lemma_fundamental_div_mod(fill, tick);
    assert((limit - fill) % tick == 0) by {
        vstd::arithmetic::div_mod::lemma_sub_mod_noop(limit, fill, tick);
        vstd::arithmetic::div_mod::lemma_small_mod(0, tick as nat);
    }
    lemma_exact_product(rules, limit, quantity);
    lemma_exact_product(rules, fill, quantity);
    lemma_exact_product(rules, limit - fill, quantity);
    assert(fill * quantity + (limit - fill) * quantity == limit * quantity) by (nonlinear_arith);
}

/// What an order sets aside is the sum of what its parts set aside, so a part
/// that is filled and a rest that is given back leave nothing behind.
pub proof fn law_reservation_splits(rules: SymbolRules, price: int, part: int, rest: int)
    requires
        exact_cost(rules, price, part),
        exact_cost(rules, price, rest),
    ensures
        money::scaled_product(price, part) + money::scaled_product(price, rest)
            == money::scaled_product(price, part + rest),
{
    let lot = rules.quantity_step_atoms as int;
    assert((part + rest) % lot == 0) by {
        vstd::arithmetic::div_mod::lemma_add_mod_noop(part, rest, lot);
        vstd::arithmetic::div_mod::lemma_small_mod(0, lot as nat);
    }
    lemma_exact_product(rules, price, part);
    lemma_exact_product(rules, price, rest);
    lemma_exact_product(rules, price, part + rest);
    assert(price * part + price * rest == price * (part + rest)) by (nonlinear_arith);
}

/// Every symbol's tick times its lot is a whole number of atoms.
pub proof fn law_grids_are_exact(symbol: Seq<char>)
    ensures
        exact_cost(symbol_rules::rules_of(symbol), 0, 0),
{
    let rules = symbol_rules::rules_of(symbol);
    assert(1_000_000int * 10_000 % 100_000_000 == 0) by (nonlinear_arith);
    assert(100_000int * 100_000 % 100_000_000 == 0) by (nonlinear_arith);
    assert(1_000_000int * 100 % 100_000_000 == 0) by (nonlinear_arith);
}

/// One fill of an order, ready to be settled.
#[derive(Debug, Clone, Copy, PartialEq, Eq, Structural)]
pub struct FillPlan {
    pub price: AmountAtoms,
    pub quantity: AmountAtoms,
    pub buyer_id: i64,
    pub seller_id: i64,
    pub buy_order_id: i64,
    pub sell_order_id: i64,
    /// Both sides are known, so funds move.
    pub settles: bool,
    /// What a limit buy gets back for a better price.
    pub over_release: AmountAtoms,
}

/// A grid amount in atoms, or nothing where it does not fit.
pub open spec fn units_amount(units: int, grid: int) -> AmountAtoms {
    if money::fits_i64(units * grid) {
        AmountAtoms((units * grid) as i64)
    } else {
        AmountAtoms(0)
    }
}

/// What a limit buy that fills at a better price gets back.
pub open spec fn price_improvement(
    side: Side,
    limit: Option<AmountAtoms>,
    price: AmountAtoms,
    quantity: AmountAtoms,
) -> AmountAtoms {
    match (side, limit) {
        (Side::Buy, Some(l)) => if l.0 > price.0 && money::fits_i64(
            money::scaled_product(l.0 - price.0, quantity.0 as int),
        ) {
            AmountAtoms(money::scaled_product(l.0 - price.0, quantity.0 as int) as i64)
        } else {
            AmountAtoms(0)
        },
        _ => AmountAtoms(0),
    }
}

/// The plan for one fill against a maker; fills of nothing are passed over.
pub open spec fn fill_plan(
    side: Side,
    user_id: i64,
    order_id: i64,
    maker_order_id: i64,
    maker: Option<i64>,
    limit: Option<AmountAtoms>,
    rules: SymbolRules,
    ticks: i64,
    lots: i64,
) -> Option<FillPlan> {
    if ticks <= 0 || lots <= 0 {
        None
    } else {
        let price = units_amount(ticks as int, rules.price_tick_atoms as int);
        let quantity = units_amount(lots as int, rules.quantity_step_atoms as int);
        let other = match maker {
            Some(m) => m,
            None => 0,
        };
        let (buyer_id, seller_id) = match side {
            Side::Buy => (user_id, other),
            Side::Sell => (other, user_id),
        };
        let (buy_order_id, sell_order_id) = match side {
            Side::Buy => (order_id, maker_order_id),
            Side::Sell => (maker_order_id, order_id),
        };
        let settles = buyer_id > 0 && seller_id > 0;
        Some(
            FillPlan {
                price,
                quantity,
                buyer_id,
                seller_id,
                buy_order_id,
                sell_order_id,
                settles,
                over_release: if settles {
                    price_improvement(side, limit, price, quantity)
                } else {
                    AmountAtoms(0)
                },
            },
        )
    }
}

/// A grid amount in atoms.
pub fn compute_units(units: i64, grid: i64) -> (r: AmountAtoms)
    ensures
        r == units_amount(units as int, grid as int),
{
    match units.checked_mul(grid) {
        Some(v) => AmountAtoms::from_atoms(v),
        None => AmountAtoms::zero(),
    }
}

fn compute_improvement(
    side: Side,
    limit: Option<AmountAtoms>,
    price: AmountAtoms,
    quantity: AmountAtoms,
) -> (r: AmountAtoms)
    requires
        price.0 >= 0,
    ensures
        r == price_improvement(side, limit, price, quantity),
{
    match (side, limit) {
        (Side::Buy, Some(l)) => {
            if l.atoms() <= price.atoms() {
                return AmountAtoms::zero();
            }
            let better = AmountAtoms::from_atoms(l.atoms() - price.atoms());
            match better.checked_mul_scaled(quantity) {
                Ok(v) => v,
                Err(_) => AmountAtoms::zero(),
            }
        },
        _ => AmountAtoms::zero(),
    }
}

/// Plans one fill against a maker.
pub fn plan_fill(
    side: Side,
    user_id: i64,
    order_id: i64,
    maker_order_id: i64,
    maker: Option<i64>,
    limit: Option<AmountAtoms>,
    rules: &SymbolRules,
    ticks: i64,
    lots: i64,
) -> (r: Option<FillPlan>)
    requires
        rules.wf(),
    ensures
        r == fill_plan(
            side,
            user_id,
            order_id,
            maker_order_id,
            maker,
            limit,
            *rules,
            ticks,
            lots,
        ),
{
    if ticks <= 0 || lots <= 0 {
        return None;
    }
    let price = compute_units(ticks, rules.price_tick_atoms);
    let quantity = compute_units(lots, rules.quantity_step_atoms);
    let other: i64 = match maker {
        Some(m) => m,
        None => 0,
    };
    let (buyer_id, seller_id) = match side {
        Side::Buy => (user_id, other),
        Side::Sell => (other, user_id),
    };
    let (buy_order_id, sell_order_id) = match side {
        Side::Buy => (order_id, maker_order_id),
        Side::Sell => (maker_order_id, order_id),
    };
    let settles = buyer_id > 0 && seller_id > 0;
    proof {
        lemma_product_sign(ticks as int, rules.price_tick_atoms as int);
    }
    let over_release = if settles {
        compute_improvement(side, limit, price, quantity)
    } else {
        AmountAtoms::zero()
    };
    Some(
        FillPlan {
            price,
            quantity,
            buyer_id,
            seller_id,
            buy_order_id,
            sell_order_id,
            settles,
            over_release,
        },
    )
}

/// What one engine did with an order.
#[derive(Debug)]
pub struct EngineFill {
    pub maker_order_id: u64,
    pub price_ticks: i64,
    pub quantity_lots: i64,
}

/// The cost of fills in atoms squared: price times quantity, summed.
pub open spec fn fill_cost(fills: Seq<EngineFill>, rules: SymbolRules) -> int
    decreases fills.len(),
{
    if fills.len() == 0 {
        0
    } else {
        let f = fills.last();
        fill_cost(fills.drop_last(), rules) + units_amount(
            f.price_ticks as int,
            rules.price_tick_atoms as int,
        ).0 * units_amount(f.quantity_lots as int, rules.quantity_step_atoms as int).0
    }
}

/// Whether every running total of the cost stays in range.
pub open spec fn cost_in_range(fills: Seq<EngineFill>, rules: SymbolRules) -> bool
    decreases fills.len(),
{
    fills.len() == 0 || (cost_in_range(fills.drop_last(), rules) && money::fits_i128(
        fill_cost(fills, rules),
    ))
}

/// The average price of fills, rounded toward zero, where it can be had.
pub open spec fn average_price(fills: Seq<EngineFill>, rules: SymbolRules, filled: AmountAtoms) -> Option<
    AmountAtoms,
> {
    if filled.0 <= 0 || !cost_in_range(fills, rules) || !money::fits_i64(
        money::trunc_div(fill_cost(fills, rules), filled.0 as int),
    ) {
        None
    } else {
        Some(AmountAtoms(money::trunc_div(fill_cost(fills, rules), filled.0 as int) as i64))
    }
}

proof fn lemma_cost_prefix(fills: Seq<EngineFill>, rules: SymbolRules, k: int)
    requires
        0 <= k <= fills.len(),
        cost_in_range(fills, rules),
    ensures
        cost_in_range(fills.take(k), rules),
    decreases fills.len() - k,
{
    if k == fills.len() {
        assert(fills.take(k) =~= fills);
    } else {
        lemma_cost_prefix(fills, rules, k + 1);
        assert(fills.take(k + 1).drop_last() =~= fills.take(k));
    }
}

/// The average price of fills.
pub fn average_fill_price(fills: &Vec<EngineFill>, rules: &SymbolRules, filled: AmountAtoms) -> (r:
    Option<AmountAtoms>)
    ensures
        r == average_price(fills@, *rules, filled),
{
    if filled.atoms() <= 0 {
        return None;
    }
    let mut total: i128 = 0;
    let mut i: usize = 0;
    proof {
        assert(fills@.take(0) =~= seq![]);
    }
    while i < fills.len()
        invariant
            i <= fills@.len(),
            total == fill_cost(fills@.take(i as int), *rules),
            cost_in_range(fills@.take(i as int), *rules),
        decreases fills@.len() - i,
    {
        proof {
            assert(fills@.take(i + 1).drop_last() =~= fills@.take(i as int));
            assert(fills@.take(i + 1).last() == fills@[i as int]);
        }
        let p = compute_units(fills[i].price_ticks, rules.price_tick_atoms).atoms();
        let q = compute_units(fills[i].quantity_lots, rules.quantity_step_atoms).atoms();
        proof {
            money::lemma_i64_product(p as int, q as int);
        }
        total =
        match total.checked_add(p as i128 * q as i128) {
            Some(v) => v,
            None => {
                proof {
                    if cost_in_range(fills@, *rules) {
                        lemma_cost_prefix(fills@, *rules, i + 1);
                    }
                }
                return None;
            },
        };
        i = i + 1;
    }
    proof {
        assert(fills@.take(i as int) =~= fills@);
    }
    let average = money::divide(total, filled.atoms() as i128);
    if average > i64::MAX as i128 || average < i64::MIN as i128 {
        None
    } else {
        Some(AmountAtoms::from_atoms(average as i64))
    }
}

/// What becomes of an order once the engine has answered.
#[derive(Debug, Clone, Copy, PartialEq, Eq, Structural)]
pub enum Outcome {
    /// Nothing happened and nothing will: everything set aside is given back.
    Rejected,
    /// Some of it was filled; the rest, where the order is over, is given back.
    Filled { released: AmountAtoms },
    /// The order waits in the book; its funds stay set aside.
    Resting,
    /// The order ended without any fill: everything set aside is given back.
    Ended,
}

/// The outcome by the engine's status and what was filled.
pub open spec fn outcome(status: OrderStatus, quantity: AmountAtoms, filled: AmountAtoms) -> Outcome {
    if status == OrderStatus::Rejected {
        Outcome::Rejected
    } else if filled.0 > 0 {
        Outcome::Filled {
            released: if status == OrderStatus::Cancelled && remaining(quantity, filled).0 > 0 {
                remaining(quantity, filled)
            } else {
                AmountAtoms(0)
            },
        }
    } else if status == OrderStatus::Accepted {
        Outcome::Resting
    } else {
        Outcome::Ended
    }
}

pub fn decide_outcome(status: OrderStatus, quantity: AmountAtoms, filled: AmountAtoms) -> (r: Outcome)
    ensures
        r == outcome(status, quantity, filled),
{
    if status == OrderStatus::Rejected {
        return Outcome::Rejected;
    }
    if filled.atoms() > 0 {
        let rest = compute_remaining(quantity, filled);
        return Outcome::Filled {
            released: if status == OrderStatus::Cancelled && rest.atoms() > 0 {
                rest
            } else {
                AmountAtoms::zero()
            },
        };
    }
    if status == OrderStatus::Accepted {
        Outcome::Resting
    } else {
        Outcome::Ended
    }
}

/// The quantity whose funds an outcome gives back.
pub open spec fn released_quantity(o: Outcome, quantity: AmountAtoms) -> AmountAtoms {
    match o {
        Outcome::Rejected => quantity,
        Outcome::Filled { released } => released,
        Outcome::Resting => AmountAtoms(0),
        Outcome::Ended => quantity,
    }
}

/// The quantity whose funds are given back after a single order on the request
/// interface: all of a rejected one, the rest of a cancelled one.
pub open spec fn closed_quantity(status: OrderStatus, quantity: AmountAtoms, filled: AmountAtoms) -> AmountAtoms {
    if status == OrderStatus::Rejected {
        quantity
    } else if status == OrderStatus::Cancelled && remaining(quantity, filled).0 > 0 {
        remaining(quantity, filled)
    } else {
        AmountAtoms(0)
    }
}

pub fn compute_closed_quantity(
    status: OrderStatus,
    quantity: AmountAtoms,
    filled: AmountAtoms,
) -> (r: AmountAtoms)
    ensures
        r == closed_quantity(status, quantity, filled),
{
    if status == OrderStatus::Rejected {
        return quantity;
    }
    let rest = compute_remaining(quantity, filled);
    if status == OrderStatus::Cancelled && rest.atoms() > 0 {
        rest
    } else {
        AmountAtoms::zero()
    }
}

/// Both interfaces give the same back, but where an engine reports a fill of
/// nothing.
pub proof fn law_interfaces_release_alike(
    status: OrderStatus,
    quantity: AmountAtoms,
    filled: AmountAtoms,
)
    requires
        0 <= filled.0 <= quantity.0,
        status == OrderStatus::Filled || status == OrderStatus::PartiallyFilled ==> filled.0 > 0,
    ensures
        closed_quantity(status, quantity, filled) == released_quantity(
            outcome(status, quantity, filled),
            quantity,
        ),
{
}

/// Funds stay set aside for exactly the part of an order that can still be
/// filled: what an outcome gives back and what was filled make up the whole
/// order unless it is still open.
pub proof fn law_closed_orders_hold_nothing(
    status: OrderStatus,
    quantity: AmountAtoms,
    filled: AmountAtoms,
)
    requires
        0 <= filled.0 <= quantity.0,
        status == OrderStatus::Filled ==> filled.0 == quantity.0 && filled.0 > 0,
        status == OrderStatus::Rejected ==> filled.0 == 0,
    ensures
        ({
            let back = released_quantity(outcome(status, quantity, filled), quantity);
            let open = status == OrderStatus::Accepted || status == OrderStatus::PartiallyFilled;
            !open ==> back.0 + filled.0 == quantity.0
        }),
{
}

/// What is known of a user's asset.
pub open spec fn balance_of(
    m: Map<i64, Map<Seq<char>, AccountBalance>>,
    user_id: i64,
    asset: Seq<char>,
) -> Option<AccountBalance> {
    if m.contains_key(user_id) && m[user_id].contains_key(asset) {
        Some(m[user_id][asset])
    } else {
        None
    }
}

/// The balances after one of them was set.
pub open spec fn with_balance(
    m: Map<i64, Map<Seq<char>, AccountBalance>>,
    user_id: i64,
    asset: Seq<char>,
    b: AccountBalance,
) -> Map<i64, Map<Seq<char>, AccountBalance>> {
    let own = if m.contains_key(user_id) {
        m[user_id]
    } else {
        Map::empty()
    };
    m.insert(user_id, own.insert(asset, b))
}

/// Whether an amount can be set aside. Nothing is granted of an asset that is
/// not known.
pub open spec fn grants(
    m: Map<i64, Map<Seq<char>, AccountBalance>>,
    user_id: i64,
    asset: Seq<char>,
    amount: int,
) -> bool {
    amount <= 0 || (balance_of(m, user_id, asset) matches Some(b) && b.spendable() >= amount)
}

/// The balances after an amount was set aside, where that is granted.
pub open spec fn after_freeze(
    m: Map<i64, Map<Seq<char>, AccountBalance>>,
    user_id: i64,
    asset: Seq<char>,
    amount: int,
) -> Map<i64, Map<Seq<char>, AccountBalance>> {
    if amount > 0 && grants(m, user_id, asset, amount) {
        with_balance(m, user_id, asset, balance_of(m, user_id, asset)->0.with_frozen(amount))
    } else {
        m
    }
}

/// The balances after an amount was given back.
pub open spec fn after_release(
    m: Map<i64, Map<Seq<char>, AccountBalance>>,
    user_id: i64,
    asset: Seq<char>,
    amount: int,
) -> Map<i64, Map<Seq<char>, AccountBalance>> {
    match balance_of(m, user_id, asset) {
        Some(b) if amount > 0 => with_balance(m, user_id, asset, given_back(b, amount)),
        _ => m,
    }
}

/// Balances that orders are checked against, by user and asset.
pub struct AccountCache {
    users: DashMap<i64, TextMap<AccountBalance>>,
}

impl AccountCache {
    pub closed spec fn view(&self) -> Map<i64, Map<Seq<char>, AccountBalance>> {
        maps::balance_entries(self.users).map_values(|m: TextMap<AccountBalance>| m.view())
    }

    /// What may be spent of every balance is in range.
    pub closed spec fn wf(&self) -> bool {
        forall|u: i64| #[trigger]
            maps::balance_entries(self.users).contains_key(u) ==> maps::balance_entries(self.users)[u].wf() && balances_in_range(
                maps::balance_entries(self.users)[u].view(),
            )
    }

    pub fn new() -> (r: AccountCache)
        ensures
            r.wf(),
            (r.view() == Map::<i64, Map<Seq<char>, AccountBalance>>::empty()),
    {
        let r = AccountCache { users: balances_new() };
        proof {
            assert(r.view() =~= Map::<i64, Map<Seq<char>, AccountBalance>>::empty());
        }
        r
    }

    /// What is known of a user's asset.
    pub fn get(&self, user_id: i64, asset: &str) -> (r: Option<AccountBalance>)
        requires
            self.wf(),
        ensures
            r == balance_of(self.view(), user_id, asset@),
    {
        match balances_get(&self.users, user_id, asset) {
            Some(found) => found,
            None => None,
        }
    }

    /// Whether anything is known of a user.
    pub fn knows(&self, user_id: i64) -> (r: bool)
        ensures
            r == self.view().contains_key(user_id),
    {
        balances_has(&self.users, user_id)
    }

    /// All balances of a user, where the user is known.
    pub fn holdings(&self, user_id: i64) -> (r: Option<Vec<(String, AccountBalance)>>)
        requires
            self.wf(),
        ensures
            match r {
                Some(list) => {
                    &&& self.view().contains_key(user_id)
                    &&& text_map::names_distinct(list@)
                    &&& text_map::by_name(list@) == self.view()[user_id]
                },
                None => !self.view().contains_key(user_id),
            },
    {
        balances_list(&self.users, user_id)
    }

    /// Sets a user's balance of an asset.
    pub fn cache_set_snapshot(&mut self, user_id: i64, asset: &str, snapshot: AccountBalance)
        requires
            old(self).wf(),
            money::fits_i64(snapshot.spendable()),
        ensures
            final(self).wf(),
            final(self).view() == with_balance(old(self).view(), user_id, asset@, snapshot),
    {
        let mut assets = match balances_remove(&mut self.users, user_id) {
            Some(m) => m,
            None => TextMap::new(),
        };
        assets.insert(asset, snapshot);
        balances_insert(&mut self.users, user_id, assets);
        proof {
            assert(self.view() =~= with_balance(old(self).view(), user_id, asset@, snapshot));
        }
    }

    /// Forgets a user; the balances are read again when next needed.
    pub fn forget(&mut self, user_id: i64)
        requires
            old(self).wf(),
        ensures
            final(self).wf(),
            final(self).view() == old(self).view().remove(user_id),
    {
        let _gone = balances_remove(&mut self.users, user_id);
        proof {
            assert(self.view() =~= old(self).view().remove(user_id));
        }
    }

    /// Sets an amount aside where the spendable part of the user's asset covers
    /// it. Nothing is granted of an asset that is not known.
    pub fn try_freeze_cache(&mut self, user_id: i64, asset: &str, amount: AmountAtoms) -> (r: bool)
        requires
            old(self).wf(),
        ensures
            final(self).wf(),
            r == grants(old(self).view(), user_id, asset@, amount.0 as int),
            final(self).view() == after_freeze(
                old(self).view(),
                user_id,
                asset@,
                amount.0 as int,
            ),
    {
        if amount.atoms() <= 0 {
            return true;
        }
        match self.get(user_id, asset) {
            Some(b) => {
                proof {
                    self.lemma_balance_in_range(user_id, asset@);
                }
                let mut b = b;
                if b.try_freeze_atoms(amount.atoms()) {
                    self.cache_set_snapshot(user_id, asset, b);
                    true
                } else {
                    false
                }
            },
            None => false,
        }
    }

    proof fn lemma_balance_in_range(&self, user_id: i64, asset: Seq<char>)
        requires
            self.wf(),
            balance_of(self.view(), user_id, asset) is Some,
        ensures
            money::fits_i64(balance_of(self.view(), user_id, asset)->0.spendable()),
    {
        assert(maps::balance_entries(self.users).contains_key(user_id));
        assert(maps::balance_entries(self.users)[user_id].view().contains_key(asset));
    }

    /// Gives back an amount that was set aside, never below zero.
    pub fn release_cache_frozen(&mut self, user_id: i64, asset: &str, amount: AmountAtoms)
        requires
            old(self).wf(),
        ensures
            final(self).wf(),
            final(self).view() == after_release(
                old(self).view(),
                user_id,
                asset@,
                amount.0 as int,
            ),
    {
        if amount.atoms() <= 0 {
            return;
        }
        if let Some(b) = self.get(user_id, asset) {
            proof {
                self.lemma_balance_in_range(user_id, asset@);
            }
            let frozen = if b.frozen_atoms <= amount.atoms() {
                0
            } else {
                b.frozen_atoms - amount.atoms()
            };
            self.cache_set_snapshot(
                user_id,
                asset,
                AccountBalance::from_atoms(b.balance_atoms, frozen),
            );
        }
    }
}

/// A balance after an amount was given back, never below zero.
pub open spec fn given_back(b: AccountBalance, amount: int) -> AccountBalance {
    AccountBalance {
        balance_atoms: b.balance_atoms,
        frozen_atoms: if b.frozen_atoms <= amount {
            0
        } else {
            (b.frozen_atoms - amount) as i64
        },
    }
}

/// Giving back what was set aside leaves all balances as they were, and no
/// balance is ever overdrawn by setting aside.
pub proof fn law_cache_freeze_is_undone(
    m: Map<i64, Map<Seq<char>, AccountBalance>>,
    user_id: i64,
    asset: Seq<char>,
    amount: AmountAtoms,
)
    requires
        grants(m, user_id, asset, amount.0 as int),
        balance_of(m, user_id, asset) matches Some(b) ==> b.frozen_atoms >= 0 && money::fits_i64(
            b.spendable(),
        ),
    ensures
        after_release(
            after_freeze(m, user_id, asset, amount.0 as int),
            user_id,
            asset,
            amount.0 as int,
        ) == m,
        amount.0 > 0 ==> (balance_of(
            after_freeze(m, user_id, asset, amount.0 as int),
            user_id,
            asset,
        ) matches Some(b) && b.spendable() >= 0),
{
    if amount.0 > 0 {
        let b = balance_of(m, user_id, asset)->0;
        let frozen = b.with_frozen(amount.0 as int);
        assert(given_back(frozen, amount.0 as int) == b);
        let held = after_freeze(m, user_id, asset, amount.0 as int);
        assert(held[user_id][asset] == frozen);
        let back = after_release(held, user_id, asset, amount.0 as int);
        assert(back[user_id] =~= m[user_id]);
        assert(back =~= m);
    }
}

pub open spec fn balances_in_range(m: Map<Seq<char>, AccountBalance>) -> bool {
    forall|a: Seq<char>| #[trigger] m.contains_key(a) ==> money::fits_i64(m[a].spendable())
}

/// An order sets aside what it may cost: a sell the quantity itself, in the
/// base asset, a buy its price times its quantity to the nearest atom, in the
/// quote asset. A buy without a price, or of nothing, sets nothing aside.
pub proof fn law_order_sets_aside_what_it_may_cost(
    side: Side,
    price: Option<AmountAtoms>,
    best: Option<AmountAtoms>,
    quantity: AmountAtoms,
    base: Seq<char>,
    quote: Seq<char>,
)
    ensures
        side == Side::Sell ==> reservation(
            side,
            backing_price(side, price, best),
            quantity,
            base,
            quote,
        ) == Ok::<(Seq<char>, AmountAtoms), ReserveError>((base, quantity)),
        side == Side::Buy ==> ({
            let paid: int = match price {
                Some(p) => p.0 as int,
                None => match best {
                    Some(b) => b.0 as int,
                    None => 0,
                },
            };
            match reservation(side, backing_price(side, price, best), quantity, base, quote) {
                Ok((asset, amount)) => {
                    &&& asset == quote
                    &&& paid * quantity.0 > 0
                    &&& amount.0 >= 0
                    &&& amount.0 * 100_000_000 - 50_000_000 <= paid * quantity.0 < amount.0
                        * 100_000_000 + 50_000_000
                },
                Err(ReserveError::NoPrice) => paid * quantity.0 <= 0,
                Err(ReserveError::TooLarge) => paid * quantity.0 >= i64::MAX * 100_000_000,
            }
        }),
{
    if side == Side::Buy {
        let b = backing_price(side, price, best).0 as int;
        money::law_product_is_the_nearest_amount(b, quantity.0 as int);
    }
}

/// What is given back for the rest of an order is what that rest had set aside.
pub proof fn law_release_mirrors_reservation(
    side: Side,
    backing: AmountAtoms,
    rest: AmountAtoms,
    base: Seq<char>,
    quote: Seq<char>,
)
    ensures
        match release(side, backing, rest, base, quote) {
            Some((asset, amount)) => {
                &&& rest.0 > 0
                &&& side == Side::Sell ==> asset == base && amount == rest
                &&& side == Side::Buy ==> asset == quote && backing.0 > 0 && amount.0 * 100_000_000
                    - 50_000_000 <= backing.0 * rest.0 < amount.0 * 100_000_000 + 50_000_000
            },
            None => rest.0 <= 0 || side == Side::Buy && (backing.0 <= 0 || backing.0 * rest.0
                >= i64::MAX * 100_000_000),
        },
        rest.0 > 0 && reservation(side, backing, rest, base, quote) is Ok ==> release(
            side,
            backing,
            rest,
            base,
            quote,
        ) == Some(reservation(side, backing, rest, base, quote)->Ok_0),
{
    money::law_product_is_the_nearest_amount(backing.0 as int, rest.0 as int);
    if rest.0 > 0 && reservation(side, backing, rest, base, quote) is Ok {
        law_refusal_gives_everything_back(side, backing, rest, base, quote);
    }
}

/// A buy that trades below its limit is given back exactly what it had set
/// aside too much; at or above the limit, without a limit, and for a sell
/// nothing is given back.
pub proof fn law_better_price_is_given_back(
    rules: SymbolRules,
    limit: AmountAtoms,
    price: AmountAtoms,
    quantity: AmountAtoms,
)
    requires
        exact_cost(rules, limit.0 as int, quantity.0 as int),
        exact_cost(rules, price.0 as int, quantity.0 as int),
        price.0 > 0,
        quantity.0 > 0,
        limit.0 * quantity.0 <= i64::MAX,
    ensures
        price.0 < limit.0 ==> money::scaled_product(price.0 as int, quantity.0 as int)
            + price_improvement(Side::Buy, Some(limit), price, quantity).0 == money::scaled_product(
            limit.0 as int,
            quantity.0 as int,
        ),
        price.0 >= limit.0 ==> price_improvement(Side::Buy, Some(limit), price, quantity).0 == 0,
        price_improvement(Side::Buy, None, price, quantity).0 == 0,
        price_improvement(Side::Sell, Some(limit), price, quantity).0 == 0,
{
    if price.0 < limit.0 {
        law_fill_uses_its_reservation(
            rules,
            limit.0 as int,
            price.0 as int,
            quantity.0 as int,
        );
        let gap = limit.0 - price.0;
        money::law_product_is_the_nearest_amount(gap, quantity.0 as int);
        let s = money::scaled_product(gap, quantity.0 as int);
        assert(0 <= gap * quantity.0 <= limit.0 * quantity.0) by (nonlinear_arith)
            requires
                0 < gap <= limit.0,
                quantity.0 > 0,
        ;
    }
}

/// In a fill the taker stands on the side of their order and the maker on the
/// other, with their orders; funds move where both are known. The fill is at
/// the price and over the quantity that the engine reports in ticks and lots.
pub proof fn law_fill_has_two_sides(
    user_id: i64,
    order_id: i64,
    maker_order_id: i64,
    maker: Option<i64>,
    limit: Option<AmountAtoms>,
    rules: SymbolRules,
    ticks: i64,
    lots: i64,
)
    ensures
        ({
            let buy = fill_plan(
                Side::Buy,
                user_id,
                order_id,
                maker_order_id,
                maker,
                limit,
                rules,
                ticks,
                lots,
            );
            let sell = fill_plan(
                Side::Sell,
                user_id,
                order_id,
                maker_order_id,
                maker,
                limit,
                rules,
                ticks,
                lots,
            );
            &&& buy is Some <==> ticks > 0 && lots > 0
            &&& sell is Some <==> ticks > 0 && lots > 0
            &&& buy matches Some(b) ==> (sell matches Some(s) && {
                &&& b.buyer_id == user_id && b.buy_order_id == order_id
                &&& s.seller_id == user_id && s.sell_order_id == order_id
                &&& b.seller_id == s.buyer_id && b.sell_order_id == s.buy_order_id
                &&& b.sell_order_id == maker_order_id
                &&& maker matches Some(m) ==> b.seller_id == m
                &&& maker is None ==> b.seller_id == 0
                &&& b.settles == s.settles
                &&& b.settles <==> user_id > 0 && (maker matches Some(m) && m > 0)
                &&& money::fits_i64(ticks * rules.price_tick_atoms) ==> b.price.0 == ticks
                    * rules.price_tick_atoms
                &&& money::fits_i64(lots * rules.quantity_step_atoms) ==> b.quantity.0 == lots
                    * rules.quantity_step_atoms
                &&& s.price == b.price && s.quantity == b.quantity
                &&& s.over_release.0 == 0
                &&& !b.settles ==> b.over_release.0 == 0
                &&& b.settles ==> b.over_release == price_improvement(
                    Side::Buy,
                    limit,
                    b.price,
                    b.quantity,
                )
            })
        }),
{
}

/// The quantity of a list of fills.
pub open spec fn fill_quantity(fills: Seq<EngineFill>, rules: SymbolRules) -> int
    decreases fills.len(),
{
    if fills.len() == 0 {
        0
    } else {
        fill_quantity(fills.drop_last(), rules) + fills.last().quantity_lots
            * rules.quantity_step_atoms
    }
}

proof fn lemma_cost_between(fills: Seq<EngineFill>, rules: SymbolRules, low: int, high: int)
    requires
        rules.wf(),
        forall|i: int|
            0 <= i < fills.len() ==> low <= (#[trigger] fills[i]).price_ticks <= high
                && fills[i].quantity_lots >= 0 && money::fits_i64(
                fills[i].price_ticks * rules.price_tick_atoms,
            ) && money::fits_i64(fills[i].quantity_lots * rules.quantity_step_atoms),
    ensures
        low * rules.price_tick_atoms * fill_quantity(fills, rules) <= fill_cost(fills, rules)
            <= high * rules.price_tick_atoms * fill_quantity(fills, rules),
    decreases fills.len(),
{
    if fills.len() > 0 {
        let rest = fills.drop_last();
        assert forall|i: int| 0 <= i < rest.len() implies low <= (#[trigger] rest[i]).price_ticks
            <= high && rest[i].quantity_lots >= 0 && money::fits_i64(
            rest[i].price_ticks * rules.price_tick_atoms,
        ) && money::fits_i64(rest[i].quantity_lots * rules.quantity_step_atoms) by {
            assert(rest[i] == fills[i]);
        }
        lemma_cost_between(rest, rules, low, high);
        let f = fills[fills.len() - 1];
        let t = rules.price_tick_atoms as int;
        let q = f.quantity_lots * rules.quantity_step_atoms;
        let p = f.price_ticks * t;
        let before = fill_quantity(rest, rules);
        assert(q >= 0) by (nonlinear_arith)
            requires
                q == f.quantity_lots * rules.quantity_step_atoms,
                f.quantity_lots >= 0,
                rules.quantity_step_atoms > 0,
        ;
        assert(low * t * q <= p * q <= high * t * q) by (nonlinear_arith)
            requires
                q >= 0,
                p == f.price_ticks * t,
                t > 0,
                low <= f.price_ticks <= high,
        ;
        assert(low * t * (before + q) == low * t * before + low * t * q) by (nonlinear_arith);
        assert(high * t * (before + q) == high * t * before + high * t * q) by (nonlinear_arith);
    } else {
        assert(low * rules.price_tick_atoms * 0 == 0) by (nonlinear_arith);
        assert(high * rules.price_tick_atoms * 0 == 0) by (nonlinear_arith);
    }
}

/// The average price of an order's fills, times the quantity filled, is what
/// the fills cost, less than the quantity apart, and it lies between the lowest
/// and the highest price among them.
pub proof fn law_average_lies_among_the_fills(
    fills: Seq<EngineFill>,
    rules: SymbolRules,
    low: int,
    high: int,
)
    requires
        rules.wf(),
        0 <= low,
        forall|i: int|
            0 <= i < fills.len() ==> low <= (#[trigger] fills[i]).price_ticks <= high
                && fills[i].quantity_lots >= 0 && money::fits_i64(
                fills[i].price_ticks * rules.price_tick_atoms,
            ) && money::fits_i64(fills[i].quantity_lots * rules.quantity_step_atoms),
        0 < fill_quantity(fills, rules) <= i64::MAX,
    ensures
        average_price(
            fills,
            rules,
            AmountAtoms(fill_quantity(fills, rules) as i64),
        ) matches Some(a) ==> {
            &&& low * rules.price_tick_atoms <= a.0 <= high * rules.price_tick_atoms
            &&& a.0 * fill_quantity(fills, rules) <= fill_cost(fills, rules) < a.0 * fill_quantity(
                fills,
                rules,
            ) + fill_quantity(fills, rules)
        },
{
    lemma_cost_between(fills, rules, low, high);
    let q = fill_quantity(fills, rules);
    let c = fill_cost(fills, rules);
    let t = rules.price_tick_atoms as int;
    assert(low * t * q >= 0) by (nonlinear_arith)
        requires
            low >= 0,
            t > 0,
            q > 0,
    ;
    money::law_division_rounds_toward_zero(c, q);
    let a = money::trunc_div(c, q);
    assert(low * t <= a <= high * t) by (nonlinear_arith)
        requires
            q > 0,
            low * t * q <= c <= high * t * q,
            a * q <= c,
            c < a * q + q,
    ;
}

/// An order that still waits is given nothing back, and one that was refused
/// everything.
pub proof fn law_waiting_orders_keep_what_they_set_aside(
    quantity: AmountAtoms,
    filled: AmountAtoms,
)
    requires
        0 <= filled.0 <= quantity.0,
    ensures
        released_quantity(outcome(OrderStatus::Accepted, quantity, filled), quantity).0 == 0,
        filled.0 > 0 ==> released_quantity(
            outcome(OrderStatus::PartiallyFilled, quantity, filled),
            quantity,
        ).0 == 0,
        closed_quantity(OrderStatus::Accepted, quantity, filled).0 == 0,
        closed_quantity(OrderStatus::PartiallyFilled, quantity, filled).0 == 0,
        released_quantity(outcome(OrderStatus::Rejected, quantity, filled), quantity) == quantity,
        closed_quantity(OrderStatus::Rejected, quantity, filled) == quantity,
        closed_quantity(OrderStatus::Cancelled, quantity, filled).0 + filled.0 == quantity.0,
        remaining(quantity, filled).0 + filled.0 == quantity.0,
{
}

/// A freeze is granted exactly where the balance is known and what is not set
/// aside covers it. It sets aside that amount of that asset and touches nothing
/// else.
pub proof fn law_freeze_touches_one_balance(
    m: Map<i64, Map<Seq<char>, AccountBalance>>,
    user_id: i64,
    asset: Seq<char>,
    amount: int,
    other: i64,
    other_asset: Seq<char>,
)
    requires
        0 < amount <= i64::MAX,
        balance_of(m, user_id, asset) matches Some(b) ==> b.frozen_atoms >= 0 && b.balance_atoms
            >= 0,
    ensures
        grants(m, user_id, asset, amount) <==> (balance_of(m, user_id, asset) matches Some(b)
            && b.balance_atoms - b.frozen_atoms >= amount),
        grants(m, user_id, asset, amount) ==> (balance_of(
            after_freeze(m, user_id, asset, amount),
            user_id,
            asset,
        ) matches Some(b) && b.frozen_atoms == balance_of(m, user_id, asset)->0.frozen_atoms + amount
            && b.balance_atoms == balance_of(m, user_id, asset)->0.balance_atoms),
        !grants(m, user_id, asset, amount) ==> after_freeze(m, user_id, asset, amount) == m,
        other != user_id || other_asset != asset ==> balance_of(
            after_freeze(m, user_id, asset, amount),
            other,
            other_asset,
        ) == balance_of(m, other, other_asset) && balance_of(
            after_release(m, user_id, asset, amount),
            other,
            other_asset,
        ) == balance_of(m, other, other_asset),
        balance_of(m, user_id, asset) matches Some(b) ==> (balance_of(
            after_release(m, user_id, asset, amount),
            user_id,
            asset,
        ) matches Some(c) && c.balance_atoms == b.balance_atoms && c.frozen_atoms == (
        if b.frozen_atoms > amount {
            b.frozen_atoms - amount
        } else {
            0
        })),
{
}

/// How long a limit order stays may be written in its type or beside it, and
/// means the same; a market order never waits.
pub proof fn law_time_in_force_is_read_alike(order_type: Seq<char>)
    ensures
        combined_tif(order_type, None) == order_type_tif(order_type),
        order_type != "market"@ && order_type_tif(order_type) is Some ==> combined_tif(
            "limit"@,
            Some(order_type),
        ) == order_type_tif(order_type),
        order_type_tif("market"@) == order_type_tif("ioc"@),
        order_type_tif("limit"@) == order_type_tif("gtc"@),
        order_type_tif("market"@) != order_type_tif("limit"@),
        order_type_tif("fok"@) != order_type_tif("ioc"@),
        order_type_tif("post_only"@) != order_type_tif("fok"@),
{
    reveal_strlit("limit");
    reveal_strlit("gtc");
    reveal_strlit("ioc");
    reveal_strlit("market");
    reveal_strlit("fok");
    reveal_strlit("post_only");
    assert("limit"@.len() == 5 && "market"@.len() == 6 && "post_only"@.len() == 9);
    assert("gtc"@[0] == 'g' && "ioc"@[0] == 'i' && "fok"@[0] == 'f');
    assert("gtc"@.len() == 3 && "ioc"@.len() == 3 && "fok"@.len() == 3);
}

} // verus!
