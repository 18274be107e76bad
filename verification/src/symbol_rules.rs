//! Trading rules per symbol and the shape of orders in ticks and lots.
use crate::money;
use crate::money::AmountAtoms;
use crate::order::{Side, TimeInForce};
use crate::text;
use vstd::prelude::*;

verus! {

#[derive(Debug, Clone, Copy, PartialEq, Eq, Structural)]
pub struct SymbolRules {
    /// The price grid in atoms.
    pub price_tick_atoms: i64,
    /// The quantity grid in atoms.
    pub quantity_step_atoms: i64,
    /// The least cost of an order with a price, in atoms.
    pub min_notional_atoms: i64,
    /// Ticks times lots divided by this is the notional in cents.
    pub notional_scale: i64,
    pub default_leverage: u8,
    pub maintenance_rate_bps: i64,
    pub margin_call_rate_bps: i64,
}

/// A refusal by its text.
pub open spec fn refusal<T>(r: Result<T, &'static str>) -> Result<T, Seq<char>> {
    match r {
        Ok(v) => Ok(v),
        Err(e) => Err(e@),
    }
}

#[derive(Debug, Clone, Copy, PartialEq, Eq, Structural)]
pub struct FixedOrderShape {
    pub price_ticks: Option<i64>,
    pub quantity_lots: i64,
}

#[derive(Debug, Clone, Copy, PartialEq, Eq, Structural)]
pub struct FixedOrderInput {
    pub id: u64,
    pub side: Side,
    pub price_ticks: i64,
    pub quantity_lots: i64,
    pub time_in_force: TimeInForce,
    pub timestamp: u64,
    pub is_market: bool,
}

/// The rules of a symbol.
pub open spec fn rules_of(symbol: Seq<char>) -> SymbolRules {
    if symbol == "ETH_USDT"@ {
        SymbolRules {
            price_tick_atoms: 1_000_000,
            quantity_step_atoms: 10_000,
            min_notional_atoms: 500_000_000,
            notional_scale: 10_000,
            default_leverage: 10,
            maintenance_rate_bps: 50,
            margin_call_rate_bps: 75,
        }
    } else if symbol == "SOL_USDT"@ {
        SymbolRules {
            price_tick_atoms: 100_000,
            quantity_step_atoms: 100_000,
            min_notional_atoms: 500_000_000,
            notional_scale: 10_000,
            default_leverage: 10,
            maintenance_rate_bps: 50,
            margin_call_rate_bps: 75,
        }
    } else {
        SymbolRules {
            price_tick_atoms: 1_000_000,
            quantity_step_atoms: 100,
            min_notional_atoms: if symbol == "BTC_USDT"@ {
                500_000_000
            } else {
                100_000_000
            },
            notional_scale: 1_000_000,
            default_leverage: 10,
            maintenance_rate_bps: 50,
            margin_call_rate_bps: 75,
        }
    }
}

/// The units of `grid` in an amount, where it is positive and on the grid.
pub open spec fn on_grid(
    atoms: int,
    grid: int,
    not_positive: Seq<char>,
    off_grid: Seq<char>,
) -> Result<i64, Seq<char>> {
    if atoms <= 0 {
        Err(not_positive)
    } else if atoms % grid != 0 {
        Err(off_grid)
    } else {
        Ok((atoms / grid) as i64)
    }
}

impl SymbolRules {
    /// The grids are positive.
    pub open spec fn wf(self) -> bool {
        self.price_tick_atoms > 0 && self.quantity_step_atoms > 0
    }

    pub open spec fn ticks_of(self, price: AmountAtoms) -> Result<i64, Seq<char>> {
        on_grid(
            price.0 as int,
            self.price_tick_atoms as int,
            "price must be > 0"@,
            "price does not match tick size"@,
        )
    }

    pub open spec fn lots_of(self, quantity: AmountAtoms) -> Result<i64, Seq<char>> {
        on_grid(
            quantity.0 as int,
            self.quantity_step_atoms as int,
            "quantity must be > 0"@,
            "quantity does not match lot size"@,
        )
    }

    pub fn for_symbol(symbol: &str) -> (r: SymbolRules)
        ensures
            r == rules_of(symbol@),
            r.wf(),
    {
        if text::str_eq(symbol, "ETH_USDT") {
            SymbolRules {
                price_tick_atoms: 1_000_000,
                quantity_step_atoms: 10_000,
                min_notional_atoms: 500_000_000,
                notional_scale: 10_000,
                default_leverage: 10,
                maintenance_rate_bps: 50,
                margin_call_rate_bps: 75,
            }
        } else if text::str_eq(symbol, "SOL_USDT") {
            SymbolRules {
                price_tick_atoms: 100_000,
                quantity_step_atoms: 100_000,
                min_notional_atoms: 500_000_000,
                notional_scale: 10_000,
                default_leverage: 10,
                maintenance_rate_bps: 50,
                margin_call_rate_bps: 75,
            }
        } else {
            SymbolRules {
                price_tick_atoms: 1_000_000,
                quantity_step_atoms: 100,
                min_notional_atoms: if text::str_eq(symbol, "BTC_USDT") {
                    500_000_000
                } else {
                    100_000_000
                },
                notional_scale: 1_000_000,
                default_leverage: 10,
                maintenance_rate_bps: 50,
                margin_call_rate_bps: 75,
            }
        }
    }

    /// The price of a number of ticks.
    pub fn ticks_to_price_atoms(self, ticks: i64) -> (r: Result<AmountAtoms, &'static str>)
        ensures
            refusal(r) == (if money::fits_i64(ticks * self.price_tick_atoms) {
                Ok(AmountAtoms((ticks * self.price_tick_atoms) as i64))
            } else {
                Err("price overflows atoms"@)
            }),
    {
        match ticks.checked_mul(self.price_tick_atoms) {
            Some(v) => Ok(AmountAtoms(v)),
            None => Err("price overflows atoms"),
        }
    }

    /// The quantity of a number of lots.
    pub fn lots_to_quantity_atoms(self, lots: i64) -> (r: Result<AmountAtoms, &'static str>)
        ensures
            refusal(r) == (if money::fits_i64(lots * self.quantity_step_atoms) {
                Ok(AmountAtoms((lots * self.quantity_step_atoms) as i64))
            } else {
                Err("quantity overflows atoms"@)
            }),
    {
        match lots.checked_mul(self.quantity_step_atoms) {
            Some(v) => Ok(AmountAtoms(v)),
            None => Err("quantity overflows atoms"),
        }
    }

    /// The ticks of a price that is exactly on the grid.
    pub fn price_atoms_to_ticks(self, atoms: AmountAtoms) -> (r: Result<i64, &'static str>)
        requires
            self.wf(),
        ensures
            refusal(r) == self.ticks_of(atoms),
    {
        let a = atoms.atoms();
        if a <= 0 {
            return Err("price must be > 0");
        }
        if a % self.price_tick_atoms != 0 {
            return Err("price does not match tick size");
        }
        proof {
            lemma_grid_quotient(a as int, self.price_tick_atoms as int);
        }
        Ok(a / self.price_tick_atoms)
    }

    /// The lots of a quantity that is exactly on the grid.
    pub fn quantity_atoms_to_lots(self, atoms: AmountAtoms) -> (r: Result<i64, &'static str>)
        requires
            self.wf(),
        ensures
            refusal(r) == self.lots_of(atoms),
    {
        let a = atoms.atoms();
        if a <= 0 {
            return Err("quantity must be > 0");
        }
        if a % self.quantity_step_atoms != 0 {
            return Err("quantity does not match lot size");
        }
        proof {
            lemma_grid_quotient(a as int, self.quantity_step_atoms as int);
        }
        Ok(a / self.quantity_step_atoms)
    }
}

proof fn lemma_grid_quotient(a: int, grid: int)
    requires
        a > 0,
        grid > 0,
    ensures
        0 <= a / grid <= a,
{
    assert(0 <= a / grid <= a) by (nonlinear_arith)
        requires
            a > 0,
            grid > 0,
    ;
}

/// A price on the grid comes back exactly from its ticks, and ticks come back
/// from their price; the same holds of quantities and lots.
pub proof fn law_grid_round_trip(rules: SymbolRules, amount: AmountAtoms, units: i64)
    requires
        rules.wf(),
    ensures
        rules.ticks_of(amount) is Ok ==> (rules.ticks_of(amount)->Ok_0) * rules.price_tick_atoms
            == amount.0,
        rules.lots_of(amount) is Ok ==> (rules.lots_of(amount)->Ok_0) * rules.quantity_step_atoms
            == amount.0,
        units > 0 && money::fits_i64(units * rules.price_tick_atoms) ==> rules.ticks_of(
            AmountAtoms((units * rules.price_tick_atoms) as i64),
        ) == Ok::<i64, Seq<char>>(units),
        units > 0 && money::fits_i64(units * rules.quantity_step_atoms) ==> rules.lots_of(
            AmountAtoms((units * rules.quantity_step_atoms) as i64),
        ) == Ok::<i64, Seq<char>>(units),
{
    lemma_grid_round_trip(amount.0 as int, units as int, rules.price_tick_atoms as int);
    lemma_grid_round_trip(amount.0 as int, units as int, rules.quantity_step_atoms as int);
}

proof fn lemma_grid_round_trip(a: int, units: int, grid: int)
    requires
        grid > 0,
    ensures
        a > 0 && a % grid == 0 ==> (a / grid) * grid == a && 0 <= a / grid <= a,
        units > 0 ==> units * grid > 0 && (units * grid) % grid == 0 && (units * grid) / grid
            == units,
{
    if a > 0 {
        lemma_grid_quotient(a, grid);
        vstd::arithmetic::div_mod::lemma_fundamental_div_mod(a, grid);
        assert((a / grid) * grid == grid * (a / grid)) by (nonlinear_arith);
    }
    if units > 0 {
        assert(units * grid > 0) by (nonlinear_arith)
            requires
                units > 0,
                grid > 0,
        ;
        vstd::arithmetic::div_mod::lemma_mod_multiples_basic(units, grid);
        vstd::arithmetic::div_mod::lemma_div_multiples_vanish(units, grid);
        assert(grid * units == units * grid) by (nonlinear_arith);
    }
}

/// The width of a symbol on the wire. A longer one would be cut, and two
/// symbols could come to share a wire form.
pub const MAX_SYMBOL_LEN: usize = 16;

pub open spec fn symbol_char(c: char) -> bool {
    ('A' <= c <= 'Z') || ('0' <= c <= '9') || c == '_'
}

/// What is wrong with a symbol, if anything.
pub open spec fn symbol_fault(symbol: Seq<char>) -> Result<(), Seq<char>> {
    if symbol.len() == 0 {
        Err("symbol must not be empty"@)
    } else if vstd::utf8::encode_utf8(symbol).len() > MAX_SYMBOL_LEN {
        Err("symbol too long"@)
    } else if exists|i: int| 0 <= i < symbol.len() && !symbol_char(#[trigger] symbol[i]) {
        Err("symbol has invalid characters"@)
    } else {
        Ok(())
    }
}

/// Checks a symbol before it reaches any fixed-width field.
pub fn validate_symbol(symbol: &str) -> (r: Result<(), &'static str>)
    ensures
        refusal(r) == symbol_fault(symbol@),
{
    if symbol.is_empty() {
        return Err("symbol must not be empty");
    }
    if symbol.as_bytes().len() > MAX_SYMBOL_LEN {
        return Err("symbol too long");
    }
    let chars = text::to_chars(symbol);
    let mut i: usize = 0;
    while i < chars.len()
        invariant
            0 <= i <= chars@.len(),
            chars@ == symbol@,
            symbol@.len() > 0,
            vstd::utf8::encode_utf8(symbol@).len() <= MAX_SYMBOL_LEN,
            forall|j: int| 0 <= j < i ==> symbol_char(#[trigger] symbol@[j]),
        decreases chars@.len() - i,
    {
        let c = chars[i];
        if !(('A' <= c && c <= 'Z') || ('0' <= c && c <= '9') || c == '_') {
            proof {
                assert(!symbol_char(symbol@[i as int]));
            }
            return Err("symbol has invalid characters");
        }
        i = i + 1;
    }
    Ok(())
}

/// The shape of an order in ticks and lots, or why it is refused.
pub open spec fn shape_of(
    symbol: Seq<char>,
    order_type: Seq<char>,
    price: Option<AmountAtoms>,
    quantity: AmountAtoms,
) -> Result<FixedOrderShape, Seq<char>> {
    let rules = rules_of(symbol);
    if symbol_fault(symbol) is Err {
        Err(symbol_fault(symbol)->Err_0)
    } else {
        match rules.lots_of(quantity) {
            Err(e) => Err(e),
            Ok(lots) => if order_type == "market"@ {
                Ok(FixedOrderShape { price_ticks: None, quantity_lots: lots })
            } else if price is None || (price->0).0 <= 0 {
                Err("price required for non-market orders"@)
            } else {
                match rules.ticks_of(price->0) {
                    Err(e) => Err(e),
                    Ok(ticks) => if (price->0).0 * quantity.0 < rules.min_notional_atoms
                        * money::AMOUNT_SCALE {
                        Err("order notional is below minimum"@)
                    } else {
                        Ok(FixedOrderShape { price_ticks: Some(ticks), quantity_lots: lots })
                    },
                }
            },
        }
    }
}

/// Brings an order to ticks and lots.
pub fn normalize_order_shape(
    symbol: &str,
    order_type: &str,
    price: Option<AmountAtoms>,
    quantity: AmountAtoms,
) -> (r: Result<FixedOrderShape, &'static str>)
    ensures
        refusal(r) == shape_of(symbol@, order_type@, price, quantity),
{
    match validate_symbol(symbol) {
        Ok(()) => {},
        Err(e) => {
            return Err(e);
        },
    }
    let rules = SymbolRules::for_symbol(symbol);
    let quantity_lots = match rules.quantity_atoms_to_lots(quantity) {
        Ok(v) => v,
        Err(e) => {
            return Err(e);
        },
    };
    if text::str_eq(order_type, "market") {
        return Ok(FixedOrderShape { price_ticks: None, quantity_lots });
    }
    let price = match price {
        Some(p) => p,
        None => {
            return Err("price required for non-market orders");
        },
    };
    if price.atoms() <= 0 {
        return Err("price required for non-market orders");
    }
    let price_ticks = match rules.price_atoms_to_ticks(price) {
        Ok(v) => v,
        Err(e) => {
            return Err(e);
        },
    };
    proof {
        money::lemma_i64_product(price.0 as int, quantity.0 as int);
    }
    if (price.atoms() as i128) * (quantity.atoms() as i128) < (rules.min_notional_atoms as i128)
        * (money::AMOUNT_SCALE as i128) {
        return Err("order notional is below minimum");
    }
    Ok(FixedOrderShape { price_ticks: Some(price_ticks), quantity_lots })
}

pub fn validate_order_shape(
    symbol: &str,
    order_type: &str,
    price: Option<AmountAtoms>,
    quantity: AmountAtoms,
) -> (r: Result<(), &'static str>)
    ensures
        refusal(r) == (match shape_of(symbol@, order_type@, price, quantity) {
            Ok(_) => Ok(()),
            Err(e) => Err(e),
        }),
{
    match normalize_order_shape(symbol, order_type, price, quantity) {
        Ok(_) => Ok(()),
        Err(e) => Err(e),
    }
}

impl FixedOrderInput {
    pub fn from_order_fields(
        id: u64,
        symbol: &str,
        side: Side,
        order_type: &str,
        price: Option<AmountAtoms>,
        quantity: AmountAtoms,
        time_in_force: TimeInForce,
        timestamp: u64,
    ) -> (r: Result<FixedOrderInput, &'static str>)
        ensures
            refusal(r) == (match shape_of(symbol@, order_type@, price, quantity) {
                Err(e) => Err(e),
                Ok(shape) => Ok(
                    FixedOrderInput {
                        id,
                        side,
                        price_ticks: match shape.price_ticks {
                            Some(t) => t,
                            None => 0,
                        },
                        quantity_lots: shape.quantity_lots,
                        time_in_force,
                        timestamp,
                        is_market: shape.price_ticks is None,
                    },
                ),
            }),
    {
        let shape = match normalize_order_shape(symbol, order_type, price, quantity) {
            Ok(shape) => shape,
            Err(e) => {
                return Err(e);
            },
        };
        Ok(
            FixedOrderInput {
                id,
                side,
                price_ticks: match shape.price_ticks {
                    Some(t) => t,
                    None => 0,
                },
                quantity_lots: shape.quantity_lots,
                time_in_force,
                timestamp,
                is_market: shape.price_ticks.is_none(),
            },
        )
    }
}

/// The grids of a symbol and its scale agree: ticks times lots, brought to
/// atoms by the scale, is price times quantity. The warning level lies half
/// again above the maintenance rate, and a position may be leveraged.
pub proof fn law_scale_agrees_with_the_grids(symbol: Seq<char>, ticks: int, lots: int)
    ensures
        ({
            let r = rules_of(symbol);
            &&& r.price_tick_atoms > 0 && r.quantity_step_atoms > 0 && r.notional_scale > 0
            &&& (ticks * r.price_tick_atoms) * (lots * r.quantity_step_atoms) * r.notional_scale
                == ticks * lots * 1_000_000 * 100_000_000
            &&& 2 * r.margin_call_rate_bps == 3 * r.maintenance_rate_bps
            &&& 0 < r.maintenance_rate_bps < r.margin_call_rate_bps < 10_000
            &&& r.default_leverage >= 1
            &&& r.maintenance_rate_bps * r.default_leverage < 10_000
            &&& r.min_notional_atoms > 0
        }),
{
    let r = rules_of(symbol);
    let a = r.price_tick_atoms as int;
    let b = r.quantity_step_atoms as int;
    let c = r.notional_scale as int;
    assert(a * b * c == 100_000_000_000_000) by (nonlinear_arith)
        requires
            a == 1_000_000 && b == 10_000 && c == 10_000 || a == 100_000 && b == 100_000 && c
                == 10_000 || a == 1_000_000 && b == 100 && c == 1_000_000,
    ;
    assert((ticks * a) * (lots * b) * c == (ticks * lots) * (a * b * c)) by (nonlinear_arith);
    assert((ticks * lots) * 100_000_000_000_000 == ticks * lots * 1_000_000 * 100_000_000)
        by (nonlinear_arith);
}

/// An order is taken exactly where its symbol is written as symbols are, its
/// quantity is a positive number of lots and, unless it is a market order, its
/// price a positive number of ticks and its cost no less than the minimum. What
/// is taken is that number of lots and ticks.
pub proof fn law_taken_orders_are_on_the_grid(
    symbol: Seq<char>,
    order_type: Seq<char>,
    price: Option<AmountAtoms>,
    quantity: AmountAtoms,
)
    ensures
        ({
            let r = rules_of(symbol);
            let written = 0 < symbol.len() && vstd::utf8::encode_utf8(symbol).len() <= 16 && (
            forall|i: int|
                0 <= i < symbol.len() ==> ('A' <= #[trigger] symbol[i] <= 'Z') || ('0' <= symbol[i]
                    <= '9') || symbol[i] == '_');
            let sized = quantity.0 > 0 && quantity.0 % r.quantity_step_atoms == 0;
            let market = order_type == "market"@;
            let priced = price matches Some(p) && p.0 > 0 && p.0 % r.price_tick_atoms == 0 && p.0
                * quantity.0 >= r.min_notional_atoms * 100_000_000;
            &&& shape_of(symbol, order_type, price, quantity) is Ok <==> written && sized && (market
                || priced)
            &&& shape_of(symbol, order_type, price, quantity) matches Ok(shape) ==> {
                &&& shape.quantity_lots > 0
                &&& shape.quantity_lots * r.quantity_step_atoms == quantity.0
                &&& market <==> shape.price_ticks is None
                &&& shape.price_ticks matches Some(t) ==> t > 0 && (price matches Some(p) && t
                    * r.price_tick_atoms == p.0)
            }
        }),
{
    let r = rules_of(symbol);
    assert(r.wf());
    law_grid_round_trip(r, quantity, 1);
    if quantity.0 > 0 && quantity.0 % r.quantity_step_atoms == 0 {
        let q = quantity.0 as int;
        let s = r.quantity_step_atoms as int;
        assert(0 < q / s <= q) by (nonlinear_arith)
            requires
                q > 0,
                s > 0,
                q % s == 0,
        ;
    }
    if price is Some {
        law_grid_round_trip(r, price->0, 1);
        let p = (price->0).0 as int;
        let t = r.price_tick_atoms as int;
        if p > 0 && p % t == 0 {
            assert(0 < p / t <= p) by (nonlinear_arith)
                requires
                    p > 0,
                    t > 0,
                    p % t == 0,
            ;
        }
    }
    assert(forall|i: int| 0 <= i < symbol.len() ==> (#[trigger] symbol_char(symbol[i]) <==> ('A'
        <= symbol[i] <= 'Z') || ('0' <= symbol[i] <= '9') || symbol[i] == '_'));
    assert((exists|i: int| 0 <= i < symbol.len() && !symbol_char(#[trigger] symbol[i])) <==> !(
    forall|i: int|
        0 <= i < symbol.len() ==> ('A' <= #[trigger] symbol[i] <= 'Z') || ('0' <= symbol[i] <= '9')
            || symbol[i] == '_'));
}

/// Three symbols are worth trading from five units of the quote on, every other
/// one from one unit; all of them start at a leverage of ten and are kept at half
/// a percent of the notional.
pub proof fn law_small_orders_are_refused_by_symbol(symbol: Seq<char>)
    ensures
        ({
            let r = rules_of(symbol);
            let named = symbol == "BTC_USDT"@ || symbol == "ETH_USDT"@ || symbol == "SOL_USDT"@;
            &&& named ==> r.min_notional_atoms == 5 * 100_000_000
            &&& !named ==> r.min_notional_atoms == 100_000_000
            &&& r.default_leverage == 10
            &&& r.maintenance_rate_bps * 200 == 10_000
            &&& symbol == "SOL_USDT"@ ==> 1_000 * r.price_tick_atoms == 100_000_000
            &&& symbol != "SOL_USDT"@ ==> 100 * r.price_tick_atoms == 100_000_000
        }),
{
    reveal_strlit("ETH_USDT");
    reveal_strlit("SOL_USDT");
    assert("ETH_USDT"@[0] == 'E' && "SOL_USDT"@[0] == 'S');
}

} // verus!
