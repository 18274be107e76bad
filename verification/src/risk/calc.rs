//! Margin figures. `notional_scale` turns ticks times lots into cents; money
//! is booked in atoms, a million to the cent. Intermediate products are taken
//! in 128 bits and quotients round toward zero.
use super::types::PositionSide;
use crate::money;
use crate::money::divide;
use crate::text;
use vstd::prelude::*;

verus! {

pub const ATOMS_PER_CENT: i128 = 1_000_000;

/// Ticks times lots, in atoms before the scale is divided out.
pub open spec fn raw_atoms(price_ticks: int, qty_lots: int) -> int {
    price_ticks * qty_lots * ATOMS_PER_CENT
}

pub open spec fn notional(price_ticks: int, qty_lots: int, notional_scale: int) -> int {
    money::trunc_div(raw_atoms(price_ticks, qty_lots), notional_scale)
}

pub open spec fn notional_fits(price_ticks: int, qty_lots: int, notional_scale: int) -> bool {
    money::ratio_fits(raw_atoms(price_ticks, qty_lots), notional_scale)
}

/// The share of an amount that a rate in basis points takes.
pub open spec fn bps_of(amount: int, bps: int) -> int {
    money::trunc_div(amount * bps, 10_000)
}

/// The price at which the loss has eaten the initial margin down to the
/// maintenance margin.
pub open spec fn liquidation_price(
    entry: int,
    leverage: int,
    rate_bps: int,
    side: PositionSide,
) -> int {
    if leverage == 0 {
        0
    } else {
        match side {
            PositionSide::Long => money::trunc_div(
                entry * (leverage * 10_000 - 10_000 + rate_bps),
                leverage * 10_000,
            ),
            PositionSide::Short => money::trunc_div(
                entry * (leverage * 10_000 + 10_000 - rate_bps),
                leverage * 10_000,
            ),
        }
    }
}

/// The price at which the loss has eaten the whole initial margin.
pub open spec fn bankruptcy_price(entry: int, leverage: int, side: PositionSide) -> int {
    match side {
        PositionSide::Long => money::trunc_div(entry * (leverage - 1), leverage),
        PositionSide::Short => money::trunc_div(entry * (leverage + 1), leverage),
    }
}

/// How far the price has moved in favour of `side`.
pub open spec fn favourable_move(side: PositionSide, entry: int, mark: int) -> int {
    match side {
        PositionSide::Long => mark - entry,
        PositionSide::Short => entry - mark,
    }
}

/// The open result of a position.
pub open spec fn open_result(
    side: PositionSide,
    qty_lots: int,
    entry: int,
    mark: int,
    notional_scale: int,
) -> int {
    notional(favourable_move(side, entry, mark), qty_lots, notional_scale)
}

pub open spec fn open_result_fits(
    side: PositionSide,
    qty_lots: int,
    entry: int,
    mark: int,
    notional_scale: int,
) -> bool {
    &&& money::fits_i64(favourable_move(side, entry, mark))
    &&& notional_fits(favourable_move(side, entry, mark), qty_lots, notional_scale)
}

/// The lots to close in one round: a share of the position, at least one lot,
/// or all of it where less than a fifth would be left.
pub open spec fn tranche(position_lots: int, tranche_bps: int) -> int {
    if tranche_bps >= 10_000 || position_lots <= 0 {
        position_lots
    } else {
        let share = tranche_share(position_lots, tranche_bps);
        if (position_lots - share) * 5 < position_lots {
            position_lots
        } else {
            share
        }
    }
}

pub open spec fn tranche_share(position_lots: int, tranche_bps: int) -> int {
    let share = bps_of(position_lots, tranche_bps) as i64;
    if share < 1 {
        1
    } else {
        share as int
    }
}

/// The leverage of the first tier whose bound covers the notional; 1 where no
/// tier does. A bound of `i64::MAX` covers everything.
pub open spec fn tier_leverage(notional_atoms: int, tiers: Seq<(i64, u8)>) -> u8
    decreases tiers.len(),
{
    if tiers.len() == 0 {
        1
    } else if tiers[0].0 == i64::MAX || notional_atoms <= tiers[0].0 {
        tiers[0].1
    } else {
        tier_leverage(notional_atoms, tiers.drop_first())
    }
}

/// The tier written as `bound:leverage`, the bound in whole units; an empty
/// bound covers everything.
pub open spec fn tier_entry(part: Seq<char>) -> Option<(i64, u8)> {
    let k = text::index_of_char(part, ':');
    if k < 0 || k >= part.len() {
        None
    } else {
        let bound = text::trimmed(part.take(k));
        match text::bounded_value(text::trimmed(part.skip(k + 1)), 255) {
            None => None,
            Some(leverage) => if bound.len() == 0 {
                Some((i64::MAX, leverage as u8))
            } else {
                match text::i64_value(bound) {
                    None => None,
                    Some(units) => if money::fits_i64(units * 100_000_000) {
                        Some(((units * 100_000_000) as i64, leverage as u8))
                    } else {
                        None
                    },
                }
            },
        }
    }
}

/// The tiers among `parts`, in order; parts that are no tier are left out.
pub open spec fn tier_list(parts: Seq<Seq<char>>) -> Seq<(i64, u8)>
    decreases parts.len(),
{
    if parts.len() == 0 {
        seq![]
    } else {
        let rest = tier_list(parts.drop_first());
        match tier_entry(parts[0]) {
            Some(tier) => seq![tier] + rest,
            None => rest,
        }
    }
}

pub fn calc_notional_atoms(price_ticks: i64, qty_lots: i64, notional_scale: i64) -> (r: i64)
    requires
        notional_fits(price_ticks as int, qty_lots as int, notional_scale as int),
    ensures
        r == notional(price_ticks as int, qty_lots as int, notional_scale as int) as i64,
{
    proof {
        money::lemma_i64_product(price_ticks as int, qty_lots as int);
    }
    let product = price_ticks as i128 * qty_lots as i128;
    divide(product * ATOMS_PER_CENT, notional_scale as i128) as i64
}

/// Whether `calc_notional_atoms` stays within 128-bit arithmetic.
pub fn notional_in_range(price_ticks: i64, qty_lots: i64, notional_scale: i64) -> (r: bool)
    ensures
        r == notional_fits(price_ticks as int, qty_lots as int, notional_scale as int),
{
    proof {
        money::lemma_i64_product(price_ticks as int, qty_lots as int);
    }
    let product = price_ticks as i128 * qty_lots as i128;
    match product.checked_mul(ATOMS_PER_CENT) {
        Some(raw) => raw.checked_div(notional_scale as i128).is_some(),
        None => false,
    }
}

/// The margin that a notional binds at a leverage; none without leverage.
pub open spec fn initial_margin(notional_atoms: int, leverage: int) -> int {
    if leverage == 0 {
        0
    } else {
        money::trunc_div(notional_atoms, leverage)
    }
}

pub fn calc_initial_margin_atoms(notional_atoms: i64, leverage: u8) -> (r: i64)
    ensures
        r == initial_margin(notional_atoms as int, leverage as int),
{
    if leverage == 0 {
        return 0;
    }
    proof {
        money::lemma_trunc_div_bounds(notional_atoms as int, leverage as int);
    }
    divide(notional_atoms as i128, leverage as i128) as i64
}

pub fn calc_maintenance_margin_atoms(notional_atoms: i64, rate_bps: i64) -> (r: i64)
    ensures
        r == bps_of(notional_atoms as int, rate_bps as int) as i64,
{
    proof {
        money::lemma_i64_product(notional_atoms as int, rate_bps as int);
        money::lemma_trunc_div_bounds(notional_atoms * rate_bps, 10_000);
    }
    divide(notional_atoms as i128 * rate_bps as i128, 10_000) as i64
}

proof fn lemma_margin_product(entry: int, factor: int)
    requires
        money::fits_i64(entry),
        -0x8000_0000_0000_0000 - 3_000_000 <= factor <= 0x8000_0000_0000_0000 + 3_000_000,
    ensures
        money::fits_i128(entry * factor),
{
    assert(-0x6000_0000_0000_0000_0000_0000_0000_0000 <= entry * factor
        <= 0x6000_0000_0000_0000_0000_0000_0000_0000) by (nonlinear_arith)
        requires
            -0x8000_0000_0000_0000 <= entry <= 0x7fff_ffff_ffff_ffff,
            -0x8000_0000_0000_0000 - 3_000_000 <= factor <= 0x8000_0000_0000_0000 + 3_000_000,
    ;
}

pub fn calc_liquidation_price_ticks(
    entry_ticks: i64,
    leverage: u8,
    maintenance_rate_bps: i64,
    side: PositionSide,
) -> (r: i64)
    ensures
        r == liquidation_price(
            entry_ticks as int,
            leverage as int,
            maintenance_rate_bps as int,
            side,
        ) as i64,
{
    if leverage == 0 {
        return 0;
    }
    let lev = leverage as i128;
    let rate = maintenance_rate_bps as i128;
    let denom = lev * 10_000;
    let factor = match side {
        PositionSide::Long => lev * 10_000 - 10_000 + rate,
        PositionSide::Short => lev * 10_000 + 10_000 - rate,
    };
    proof {
        lemma_margin_product(entry_ticks as int, factor as int);
        money::lemma_trunc_div_bounds(entry_ticks * factor, denom as int);
    }
    divide(entry_ticks as i128 * factor, denom) as i64
}

pub fn calc_bankruptcy_price_ticks(entry_ticks: i64, leverage: u8, side: PositionSide) -> (r: i64)
    requires
        leverage > 0,
    ensures
        r == bankruptcy_price(entry_ticks as int, leverage as int, side) as i64,
{
    let lev = leverage as i128;
    let factor = match side {
        PositionSide::Long => lev - 1,
        PositionSide::Short => lev + 1,
    };
    proof {
        lemma_margin_product(entry_ticks as int, factor as int);
        money::lemma_trunc_div_bounds(entry_ticks * factor, lev as int);
    }
    divide(entry_ticks as i128 * factor, lev) as i64
}

pub fn calc_unrealized_pnl_atoms(
    side: PositionSide,
    qty_lots: i64,
    entry_price_ticks: i64,
    mark_price_ticks: i64,
    notional_scale: i64,
) -> (r: i64)
    requires
        open_result_fits(
            side,
            qty_lots as int,
            entry_price_ticks as int,
            mark_price_ticks as int,
            notional_scale as int,
        ),
    ensures
        r == open_result(
            side,
            qty_lots as int,
            entry_price_ticks as int,
            mark_price_ticks as int,
            notional_scale as int,
        ) as i64,
{
    let diff = match side {
        PositionSide::Long => mark_price_ticks - entry_price_ticks,
        PositionSide::Short => entry_price_ticks - mark_price_ticks,
    };
    calc_notional_atoms(diff, qty_lots, notional_scale)
}

/// Whether `calc_unrealized_pnl_atoms` stays within machine arithmetic.
pub fn unrealized_pnl_in_range(
    side: PositionSide,
    qty_lots: i64,
    entry_price_ticks: i64,
    mark_price_ticks: i64,
    notional_scale: i64,
) -> (r: bool)
    ensures
        r == open_result_fits(
            side,
            qty_lots as int,
            entry_price_ticks as int,
            mark_price_ticks as int,
            notional_scale as int,
        ),
{
    let diff = match side {
        PositionSide::Long => mark_price_ticks.checked_sub(entry_price_ticks),
        PositionSide::Short => entry_price_ticks.checked_sub(mark_price_ticks),
    };
    match diff {
        Some(d) => notional_in_range(d, qty_lots, notional_scale),
        None => false,
    }
}

/// The fee on a fill; a negative rate is a rebate and gives a negative fee.
pub fn fee_atoms(notional_atoms: i64, fee_bps: i64) -> (r: i64)
    ensures
        r == bps_of(notional_atoms as int, fee_bps as int) as i64,
{
    calc_maintenance_margin_atoms(notional_atoms, fee_bps)
}

/// Whether the size of a round stays within 64-bit arithmetic.
pub open spec fn tranche_fits(position_lots: int, tranche_bps: int) -> bool {
    tranche_bps < 10_000 && position_lots > 0 ==> {
        &&& money::fits_i64(position_lots - tranche_share(position_lots, tranche_bps))
        &&& money::fits_i64((position_lots - tranche_share(position_lots, tranche_bps)) * 5)
    }
}

/// Whether `liquidation_tranche_lots` stays within 64-bit arithmetic.
pub fn tranche_in_range(position_lots: i64, tranche_bps: i64) -> (r: bool)
    ensures
        r == tranche_fits(position_lots as int, tranche_bps as int),
{
    if tranche_bps >= 10_000 || position_lots <= 0 {
        return true;
    }
    let share = fee_atoms(position_lots, tranche_bps);
    let share: i64 = if share < 1 {
        1
    } else {
        share
    };
    match position_lots.checked_sub(share) {
        Some(remainder) => remainder.checked_mul(5).is_some(),
        None => false,
    }
}

/// The lots to liquidate in one round.
pub fn liquidation_tranche_lots(position_lots: i64, tranche_bps: i64) -> (r: i64)
    requires
        tranche_fits(position_lots as int, tranche_bps as int),
    ensures
        r == tranche(position_lots as int, tranche_bps as int),
{
    if tranche_bps >= 10_000 || position_lots <= 0 {
        return position_lots;
    }
    let share = fee_atoms(position_lots, tranche_bps);
    let share: i64 = if share < 1 {
        1
    } else {
        share
    };
    let remainder = position_lots - share;
    if remainder * 5 < position_lots {
        position_lots
    } else {
        share
    }
}

/// A round of a positive share closes at least one lot and never more than
/// the position; a tail that stays is at least a fifth of it.
pub proof fn law_tranche_within_position(position_lots: i64, tranche_bps: i64)
    requires
        position_lots > 0,
        tranche_bps > 0,
    ensures
        0 < tranche(position_lots as int, tranche_bps as int) <= position_lots,
        tranche(position_lots as int, tranche_bps as int) != position_lots ==> (position_lots
            - tranche(position_lots as int, tranche_bps as int)) * 5 >= position_lots,
{
    if tranche_bps < 10_000 {
        let p = position_lots as int;
        let b = tranche_bps as int;
        assert(0 <= p * b / 10_000 <= p) by (nonlinear_arith)
            requires
                0 < p,
                0 < b < 10_000,
        ;
        assert(p * b > 0) by (nonlinear_arith)
            requires
                0 < p,
                0 < b,
        ;
    }
}

/// The most leverage permitted at a notional.
pub fn max_leverage_for_notional(notional_atoms: i64, tiers: &[(i64, u8)]) -> (r: u8)
    ensures
        r == tier_leverage(notional_atoms as int, tiers@),
{
    let mut i: usize = 0;
    proof {
        assert(tiers@.skip(0) =~= tiers@);
    }
    while i < tiers.len()
        invariant
            0 <= i <= tiers@.len(),
            tier_leverage(notional_atoms as int, tiers@) == tier_leverage(
                notional_atoms as int,
                tiers@.skip(i as int),
            ),
        decreases tiers@.len() - i,
    {
        let (bound, leverage) = tiers[i];
        if bound == i64::MAX || notional_atoms <= bound {
            return leverage;
        }
        proof {
            assert(tiers@.skip(i as int).drop_first() =~= tiers@.skip(i + 1));
        }
        i = i + 1;
    }
    1
}

/// With leverages that fall from tier to tier and never below one, a larger
/// position is never allowed more leverage than a smaller one.
pub proof fn law_larger_notional_less_leverage(small: int, large: int, tiers: Seq<(i64, u8)>)
    requires
        small <= large,
        forall|i: int, j: int| 0 <= i <= j < tiers.len() ==> tiers[i].1 >= tiers[j].1,
        forall|i: int| 0 <= i < tiers.len() ==> (#[trigger] tiers[i]).1 >= 1,
    ensures
        tier_leverage(large, tiers) <= tier_leverage(small, tiers),
    decreases tiers.len(),
{
    if tiers.len() > 0 {
        let rest = tiers.drop_first();
        assert forall|i: int, j: int| 0 <= i <= j < rest.len() implies rest[i].1 >= rest[j].1 by {
            assert(rest[i] == tiers[i + 1]);
            assert(rest[j] == tiers[j + 1]);
        }
        law_larger_notional_less_leverage(small, large, rest);
        lemma_tier_leverage_bounded(large, tiers, tiers[0].1);
    }
}

proof fn lemma_tier_leverage_bounded(notional_atoms: int, tiers: Seq<(i64, u8)>, cap: u8)
    requires
        cap >= 1,
        forall|i: int| 0 <= i < tiers.len() ==> (#[trigger] tiers[i]).1 <= cap,
    ensures
        tier_leverage(notional_atoms, tiers) <= cap,
    decreases tiers.len(),
{
    if tiers.len() > 0 {
        let rest = tiers.drop_first();
        assert forall|i: int| 0 <= i < rest.len() implies (#[trigger] rest[i]).1 <= cap by {
            assert(rest[i] == tiers[i + 1]);
        }
        lemma_tier_leverage_bounded(notional_atoms, rest, cap);
    }
}

fn parse_tier(part: &[char]) -> (r: Option<(i64, u8)>)
    ensures
        r == tier_entry(part@),
{
    let k = text::find_char(part, ':');
    if k >= part.len() {
        return None;
    }
    let before = vstd::slice::slice_subrange(part, 0, k);
    let after = vstd::slice::slice_subrange(part, k + 1, part.len());
    proof {
        assert(before@ =~= part@.take(k as int));
        assert(after@ =~= part@.skip(k + 1));
    }
    let (lo, hi) = text::trim_bounds(after);
    let leverage = match text::parse_bounded_chars(vstd::slice::slice_subrange(after, lo, hi), 255) {
        Some(v) => v as u8,
        None => {
            return None;
        },
    };
    let (lo, hi) = text::trim_bounds(before);
    let bound = vstd::slice::slice_subrange(before, lo, hi);
    if bound.len() == 0 {
        return Some((i64::MAX, leverage));
    }
    match text::parse_i64_chars(bound) {
        None => None,
        Some(units) => match units.checked_mul(100_000_000) {
            Some(atoms) => Some((atoms, leverage)),
            None => None,
        },
    }
}

/// Reads tiers such as `1000000:20,5000000:10,:5`. Entries that cannot be read
/// are left out; an empty result means that there is no tiering.
pub fn parse_risk_tiers(spec: &str) -> (r: Vec<(i64, u8)>)
    ensures
        r@ == tier_list(text::split_on(spec@, ',')),
{
    let chars = text::to_chars(spec);
    let n = chars.len();
    let mut out: Vec<(i64, u8)> = Vec::new();
    let mut start: usize = 0;
    proof {
        assert(spec@.skip(0) =~= spec@);
        assert(out@ + tier_list(text::split_on(spec@, ',')) =~= tier_list(
            text::split_on(spec@, ','),
        ));
    }
    loop
        invariant_except_break
            start <= n,
            n == chars@.len(),
            chars@ == spec@,
            tier_list(text::split_on(spec@, ',')) == out@ + tier_list(
                text::split_on(spec@.skip(start as int), ','),
            ),
        ensures
            out@ == tier_list(text::split_on(spec@, ',')),
        decreases n - start,
    {
        let rest = vstd::slice::slice_subrange(chars.as_slice(), start, n);
        proof {
            assert(rest@ =~= spec@.skip(start as int));
        }
        let k = text::find_char(rest, ',');
        let part = vstd::slice::slice_subrange(rest, 0, k);
        let ghost pieces = text::split_on(rest@, ',');
        let ghost before = out@;
        if k >= rest.len() {
            proof {
                assert(part@ =~= rest@);
                assert(pieces.drop_first() =~= seq![]);
            }
            if let Some(tier) = parse_tier(part) {
                out.push(tier);
            }
            proof {
                assert(tier_list(seq![]) =~= seq![]);
                assert(out@ =~= before + tier_list(pieces));
            }
            break;
        }
        proof {
            assert(part@ =~= rest@.take(k as int));
            assert(rest@.skip(k + 1) =~= spec@.skip(start + k + 1));
            assert(pieces[0] == rest@.take(k as int));
            assert(pieces.drop_first() =~= text::split_on(rest@.skip(k + 1), ','));
        }
        if let Some(tier) = parse_tier(part) {
            out.push(tier);
        }
        start = start + k + 1;
        proof {
            assert(before + tier_list(pieces) =~= out@ + tier_list(
                text::split_on(spec@.skip(start as int), ','),
            ));
        }
    }
    out
}

/// A tranche is the share of the position that its rate names, to the lot below
/// and one lot at least. It is the whole position at the full rate, or where the
/// share would leave less than a fifth.
pub proof fn law_tranche_is_its_share(position_lots: i64, tranche_bps: i64)
    requires
        position_lots > 0,
        tranche_bps > 0,
    ensures
        ({
            let lots = position_lots as int;
            let bps = tranche_bps as int;
            let t = tranche(lots, bps);
            &&& bps >= 10_000 ==> t == lots
            &&& t < lots ==> t * 10_000 <= lots * bps < (t + 1) * 10_000 || (t == 1 && lots * bps
                < 10_000)
            &&& lots > 1 && bps <= 8_000 ==> t < lots
            &&& bps < 10_000 && t == lots ==> lots == 1 || 5 * (lots * bps) > 40_000 * lots
        }),
{
    let lots = position_lots as int;
    let bps = tranche_bps as int;
    let product = lots * bps;
    assert(product > 0) by (nonlinear_arith)
        requires
            product == lots * bps,
            lots > 0,
            bps > 0,
    ;
    if bps < 10_000 {
        let q = bps_of(lots, bps);
        money::law_division_rounds_toward_zero(product, 10_000);
        assert(product < 10_000 * lots) by (nonlinear_arith)
            requires
                product == lots * bps,
                lots > 0,
                bps < 10_000,
        ;
        assert(0 <= q < lots);
        assert(q as i64 == q);
        if bps <= 8_000 {
            assert(product <= 8_000 * lots) by (nonlinear_arith)
                requires
                    product == lots * bps,
                    lots > 0,
                    bps <= 8_000,
            ;
        }
    }
}

/// The leverage allowed is that of the first tier whose bound the notional does
/// not exceed, and one where there is none.
pub proof fn law_first_covering_tier_decides(notional_atoms: int, tiers: Seq<(i64, u8)>, k: int)
    requires
        0 <= k <= tiers.len(),
        forall|i: int| 0 <= i < k ==> (#[trigger] tiers[i]).0 < notional_atoms && tiers[i].0 != i64::MAX,
    ensures
        k < tiers.len() && notional_atoms <= tiers[k].0 ==> tier_leverage(notional_atoms, tiers)
            == tiers[k].1,
        k < tiers.len() && tiers[k].0 == i64::MAX ==> tier_leverage(notional_atoms, tiers)
            == tiers[k].1,
        k == tiers.len() ==> tier_leverage(notional_atoms, tiers) == 1,
    decreases k,
{
    if k > 0 {
        let rest = tiers.drop_first();
        assert(tiers[0].0 < notional_atoms && tiers[0].0 != i64::MAX);
        assert forall|i: int| 0 <= i < k - 1 implies (#[trigger] rest[i]).0 < notional_atoms
            && rest[i].0 != i64::MAX by {
            assert(rest[i] == tiers[i + 1]);
        }
        law_first_covering_tier_decides(notional_atoms, rest, k - 1);
    }
}

/// A tier is written as a bound in whole units and a leverage with a colon
/// between them; without a bound it covers everything.
pub proof fn law_written_tier_reads_back(units: i64, leverage: u8)
    ensures
        money::fits_i64(units * 100_000_000) ==> tier_entry(
            text::int_text(units as int) + seq![':'] + text::nat_text(leverage as nat),
        ) == Some(((units * 100_000_000) as i64, leverage)),
        tier_entry(seq![':'] + text::nat_text(leverage as nat)) == Some((i64::MAX, leverage)),
{
    let head = text::int_text(units as int);
    let tail = text::nat_text(leverage as nat);
    let magnitude: nat = if units < 0 {
        (-(units as int)) as nat
    } else {
        units as nat
    };
    text::lemma_nat_text(magnitude);
    text::lemma_nat_text(leverage as nat);
    text::lemma_int_text(units);
    text::lemma_bounded_text(leverage as u64, 255);
    let digits = text::nat_text(magnitude);
    assert(text::is_digit(digits[0]) && text::is_digit(digits[digits.len() - 1]));
    assert(text::is_digit(tail[0]) && text::is_digit(tail[tail.len() - 1]));
    assert(head.last() == digits.last());
    text::lemma_trimmed_without_space(head);
    text::lemma_trimmed_without_space(tail);
    text::lemma_digits_lack(digits, ':');
    let s = head + seq![':'] + tail;
    assert forall|j: int| 0 <= j < head.len() implies s[j] != ':' by {
        assert(s[j] == head[j]);
        if units < 0 && j > 0 {
            assert(head[j] == digits[j - 1]);
        }
    }
    text::lemma_index_of_char_is(s, ':', head.len() as int);
    assert(s.take(head.len() as int) =~= head);
    assert(s.skip(head.len() as int + 1) =~= tail);
    let open = seq![':'] + tail;
    text::lemma_index_of_char_is(open, ':', 0);
    assert(open.take(0) =~= seq![]);
    assert(open.skip(1) =~= tail);
    assert(text::trimmed(Seq::<char>::empty()) =~= Seq::<char>::empty());
}

/// A list of tiers has those parts that can be read, in their order.
pub proof fn law_readable_tiers_are_kept(parts: Seq<Seq<char>>, tier: (i64, u8))
    ensures
        tier_list(parts).contains(tier) <==> exists|i: int|
            0 <= i < parts.len() && #[trigger] tier_entry(parts[i]) == Some(tier),
        (forall|i: int| 0 <= i < parts.len() ==> #[trigger] tier_entry(parts[i]) is Some) ==> (
        tier_list(parts).len() == parts.len() && forall|i: int|
            0 <= i < parts.len() ==> Some(#[trigger] tier_list(parts)[i]) == tier_entry(parts[i])),
    decreases parts.len(),
{
    if parts.len() > 0 {
        let rest = parts.drop_first();
        law_readable_tiers_are_kept(rest, tier);
        let some = tier_list(rest);
        let all = tier_list(parts);
        let shift: int = if tier_entry(parts[0]) is Some {
            1
        } else {
            0
        };
        assert(all.len() == some.len() + shift);
        assert forall|i: int| 0 <= i < some.len() implies all[i + shift] == #[trigger] some[i] by {}
        if some.contains(tier) {
            let j = choose|j: int| 0 <= j < some.len() && some[j] == tier;
            assert(all[j + shift] == tier);
            let i = choose|i: int| 0 <= i < rest.len() && #[trigger] tier_entry(rest[i]) == Some(tier);
            assert(tier_entry(parts[i + 1]) == Some(tier));
        }
        if tier_entry(parts[0]) == Some(tier) {
            assert(all[0] == tier);
        }
        if all.contains(tier) && !some.contains(tier) {
            let j = choose|j: int| 0 <= j < all.len() && all[j] == tier;
            if j >= shift {
                assert(some[j - shift] == tier);
            }
            assert(tier_entry(parts[0]) == Some(tier));
        }
        if exists|i: int| 0 <= i < parts.len() && #[trigger] tier_entry(parts[i]) == Some(tier) {
            let i = choose|i: int|
                0 <= i < parts.len() && #[trigger] tier_entry(parts[i]) == Some(tier);
            if i > 0 {
                assert(tier_entry(rest[i - 1]) == Some(tier));
            }
        }
        if forall|i: int| 0 <= i < parts.len() ==> #[trigger] tier_entry(parts[i]) is Some {
            assert(tier_entry(parts[0]) is Some);
            assert forall|i: int| 0 <= i < rest.len() implies #[trigger] tier_entry(rest[i]) is Some by {
                assert(tier_entry(parts[i + 1]) is Some);
            }
            assert forall|i: int| 0 <= i < parts.len() implies Some(#[trigger] all[i])
                == tier_entry(parts[i]) by {
                if i > 0 {
                    assert(all[i] == some[i - 1]);
                    assert(rest[i - 1] == parts[i]);
                }
            }
        }
    }
}

} // verus!
