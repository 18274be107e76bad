//! Perpetual funding: every period longs pay shorts, or the reverse, a rate
//! taken from how far the mark trades from the index. Rates are integers in
//! units of 1e-9.
use crate::maps::Symbol;
use crate::money;
use crate::money::divide;
use crate::risk::engine::RiskEngine;
use crate::risk::types::PositionSide;
use crate::text;
use vstd::prelude::*;

verus! {

pub const RATE_SCALE_E9: i128 = 1_000_000_000;

/// Where an index price comes from.
pub trait IndexPriceSource {
    /// The index in ticks, `None` where it is not available: a sample is then
    /// skipped, never guessed.
    fn index_price_ticks(&mut self, symbol: &Symbol) -> Option<i64>;
}

#[derive(Clone, Copy, Debug, PartialEq, Eq, Structural)]
pub struct FundingConfig {
    pub period_secs: u64,
    /// Fixed interest per period.
    pub interest_e9: i64,
    /// Symmetric clamp on the final rate.
    pub clamp_e9: i64,
}

#[derive(Clone, Copy, Debug, PartialEq, Eq, Structural)]
pub enum FundingConfigError {
    NegativeClamp,
    InterestOutOfRange,
}

/// The number in a setting, or the default where it is missing or no number.
pub open spec fn setting_or(value: Option<Seq<char>>, default: i64) -> i64 {
    match value {
        Some(s) => match text::i64_value(s) {
            Some(v) => v,
            None => default,
        },
        None => default,
    }
}

/// Reads a numeric setting.
pub fn read_setting(value: Option<&str>, default: i64) -> (r: i64)
    ensures
        r == setting_or(text::opt_str(value), default),
{
    match value {
        Some(s) => match text::parse_i64(s) {
            Some(v) => v,
            None => default,
        },
        None => default,
    }
}

impl FundingConfig {
    /// Builds the configuration from the texts of its settings; what is
    /// missing or no number takes its default of eight hours, 0.01 % interest
    /// and a 0.75 % clamp.
    pub fn from_settings(
        period_secs: Option<&str>,
        interest_e9: Option<&str>,
        clamp_e9: Option<&str>,
    ) -> (r: Result<FundingConfig, FundingConfigError>)
        ensures
            ({
                let clamp = setting_or(text::opt_str(clamp_e9), 7_500_000);
                let interest = setting_or(text::opt_str(interest_e9), 100_000);
                r == (if clamp < 0 {
                    Err(FundingConfigError::NegativeClamp)
                } else if interest > 1_000_000 || interest < -1_000_000 {
                    Err(FundingConfigError::InterestOutOfRange)
                } else {
                    Ok(
                        FundingConfig {
                            period_secs: setting_or(text::opt_str(period_secs), 28_800) as u64,
                            interest_e9: interest,
                            clamp_e9: clamp,
                        },
                    )
                })
            }),
    {
        let clamp = read_setting(clamp_e9, 7_500_000);
        let interest = read_setting(interest_e9, 100_000);
        if clamp < 0 {
            return Err(FundingConfigError::NegativeClamp);
        }
        if interest > 1_000_000 || interest < -1_000_000 {
            return Err(FundingConfigError::InterestOutOfRange);
        }
        Ok(
            FundingConfig {
                period_secs: read_setting(period_secs, 28_800) as u64,
                interest_e9: interest,
                clamp_e9: clamp,
            },
        )
    }
}

/// How far the mark trades from the index, relative to the index.
pub open spec fn premium_of(mark_ticks: int, index_ticks: int) -> int {
    money::trunc_div((mark_ticks - index_ticks) * RATE_SCALE_E9, index_ticks)
}

pub open spec fn clamp_to(v: int, bound: int) -> int {
    if v < -bound {
        -bound
    } else if v > bound {
        bound
    } else {
        v
    }
}

/// The running mean of premium samples over one period.
#[derive(Debug)]
pub struct PremiumTracker {
    sum_e9: i128,
    samples: u64,
}

impl PremiumTracker {
    pub closed spec fn sum(&self) -> int {
        self.sum_e9 as int
    }

    pub closed spec fn count(&self) -> int {
        self.samples as int
    }

    /// The mean of the samples, zero where there is none.
    pub open spec fn mean(&self) -> i64 {
        if self.count() == 0 {
            0
        } else {
            money::trunc_div(self.sum(), self.count()) as i64
        }
    }

    /// Takes one sample; a price that is not positive is skipped.
    pub fn sample(&mut self, mark_ticks: i64, index_ticks: i64)
        requires
            mark_ticks > 0 && index_ticks > 0 ==> {
                &&& money::fits_i128(
                    old(self).sum() + premium_of(mark_ticks as int, index_ticks as int),
                )
                &&& old(self).count() < u64::MAX
            },
        ensures
            mark_ticks > 0 && index_ticks > 0 ==> {
                &&& final(self).sum() == old(self).sum() + premium_of(
                    mark_ticks as int,
                    index_ticks as int,
                )
                &&& final(self).count() == old(self).count() + 1
            },
            mark_ticks <= 0 || index_ticks <= 0 ==> {
                &&& final(self).sum() == old(self).sum()
                &&& final(self).count() == old(self).count()
            },
    {
        if index_ticks <= 0 || mark_ticks <= 0 {
            return;
        }
        let gap = (mark_ticks as i128 - index_ticks as i128) * RATE_SCALE_E9;
        proof {
            money::lemma_trunc_div_bounds(gap as int, index_ticks as int);
        }
        let premium = divide(gap, index_ticks as i128);
        self.sum_e9 = self.sum_e9 + premium;
        self.samples = self.samples + 1;
    }

    pub fn samples(&self) -> (r: u64)
        ensures
            r == self.count(),
    {
        self.samples
    }

    /// The mean of the samples taken so far.
    pub fn twap_e9(&self) -> (r: i64)
        ensures
            r == self.mean(),
    {
        if self.samples == 0 {
            return 0;
        }
        proof {
            money::lemma_trunc_div_bounds(self.sum_e9 as int, self.samples as int);
        }
        divide(self.sum_e9, self.samples as i128) as i64
    }

    /// The rate of the period, clamped; the next period starts without samples.
    pub fn close_period(&mut self, cfg: &FundingConfig) -> (r: i64)
        requires
            cfg.clamp_e9 >= 0,
        ensures
            r == clamp_to(old(self).mean() + cfg.interest_e9, cfg.clamp_e9 as int),
            -cfg.clamp_e9 <= r <= cfg.clamp_e9,
            final(self).sum() == 0,
            final(self).count() == 0,
    {
        let raw = self.twap_e9() as i128 + cfg.interest_e9 as i128;
        let bound = cfg.clamp_e9 as i128;
        let clamped = if raw < -bound {
            -bound
        } else if raw > bound {
            bound
        } else {
            raw
        };
        self.sum_e9 = 0;
        self.samples = 0;
        clamped as i64
    }
}

impl Default for PremiumTracker {
    fn default() -> (r: PremiumTracker)
        ensures
            r.sum() == 0,
            r.count() == 0,
    {
        PremiumTracker { sum_e9: 0, samples: 0 }
    }
}

/// What a position pays at a rate; positive where the long side pays.
pub open spec fn payment(qty_lots: int, mark_ticks: int, notional_scale: int, rate_e9: int) -> i64 {
    money::trunc_div(
        (crate::risk::calc::notional(mark_ticks, qty_lots, notional_scale) as i64) * rate_e9,
        RATE_SCALE_E9 as int,
    ) as i64
}

/// The funding payment of one position in atoms, rounded toward zero.
pub fn compute_payment(qty_lots: i64, mark_ticks: i64, notional_scale: i64, rate_e9: i64) -> (r:
    i64)
    requires
        crate::risk::calc::notional_fits(
            mark_ticks as int,
            qty_lots as int,
            notional_scale as int,
        ),
    ensures
        r == payment(qty_lots as int, mark_ticks as int, notional_scale as int, rate_e9 as int),
{
    let value = crate::risk::calc::calc_notional_atoms(mark_ticks, qty_lots, notional_scale);
    proof {
        money::lemma_i64_product(value as int, rate_e9 as int);
        money::lemma_trunc_div_bounds(value * rate_e9, RATE_SCALE_E9 as int);
    }
    divide(value as i128 * rate_e9 as i128, RATE_SCALE_E9) as i64
}

/// One user's part in a settlement.
#[derive(Debug, Clone, Copy, PartialEq, Eq, Structural)]
pub struct FundingDelta {
    pub user_id: i64,
    /// Change of equity in atoms, negative where the user paid.
    pub equity_delta_atoms: i64,
}

/// A settlement over a set of positions.
#[derive(Debug)]
pub struct FundingSettlement {
    pub deltas: Vec<FundingDelta>,
    pub long_paid_atoms: i64,
    pub short_received_atoms: i64,
    /// Goes to the insurance fund, so that the books stay exactly zero-sum.
    pub residue_atoms: i64,
}

impl Default for FundingSettlement {
    fn default() -> (r: FundingSettlement)
        ensures
            r.deltas@.len() == 0,
            r.long_paid_atoms == 0,
            r.short_received_atoms == 0,
            r.residue_atoms == 0,
    {
        FundingSettlement {
            deltas: Vec::new(),
            long_paid_atoms: 0,
            short_received_atoms: 0,
            residue_atoms: 0,
        }
    }
}

/// The equity change of one position: the long side pays what the short side
/// is paid.
pub open spec fn delta_of(
    position: (i64, PositionSide, i64),
    mark: int,
    scale: int,
    rate: int,
) -> int {
    let p = payment(position.2 as int, mark, scale, rate);
    match position.1 {
        PositionSide::Long => -p,
        PositionSide::Short => p as int,
    }
}

/// The equity changes of the positions, in order, without those that are zero.
pub open spec fn deltas_of(
    positions: Seq<(i64, PositionSide, i64)>,
    mark: int,
    scale: int,
    rate: int,
) -> Seq<FundingDelta>
    decreases positions.len(),
{
    if positions.len() == 0 {
        seq![]
    } else {
        let rest = deltas_of(positions.drop_last(), mark, scale, rate);
        let d = delta_of(positions.last(), mark, scale, rate);
        if d == 0 {
            rest
        } else {
            rest.push(
                FundingDelta { user_id: positions.last().0, equity_delta_atoms: d as i64 },
            )
        }
    }
}

/// What the positions that pay pay in total.
pub open spec fn paid_of(
    positions: Seq<(i64, PositionSide, i64)>,
    mark: int,
    scale: int,
    rate: int,
) -> int
    decreases positions.len(),
{
    if positions.len() == 0 {
        0
    } else {
        let d = delta_of(positions.last(), mark, scale, rate);
        paid_of(positions.drop_last(), mark, scale, rate) + (if d < 0 {
            -d
        } else {
            0
        })
    }
}

/// What the positions that are paid are paid in total.
pub open spec fn received_of(
    positions: Seq<(i64, PositionSide, i64)>,
    mark: int,
    scale: int,
    rate: int,
) -> int
    decreases positions.len(),
{
    if positions.len() == 0 {
        0
    } else {
        let d = delta_of(positions.last(), mark, scale, rate);
        received_of(positions.drop_last(), mark, scale, rate) + (if d > 0 {
            d
        } else {
            0
        })
    }
}

pub open spec fn sum_of(deltas: Seq<FundingDelta>) -> int
    decreases deltas.len(),
{
    if deltas.len() == 0 {
        0
    } else {
        sum_of(deltas.drop_last()) + deltas.last().equity_delta_atoms
    }
}

/// Whether the settlement stays within machine arithmetic.
pub open spec fn settlement_fits(
    positions: Seq<(i64, PositionSide, i64)>,
    mark: int,
    scale: int,
    rate: int,
) -> bool {
    &&& forall|i: int|
        0 <= i < positions.len() ==> {
            &&& crate::risk::calc::notional_fits(mark, (#[trigger] positions[i]).2 as int, scale)
            &&& money::fits_i64(delta_of(positions[i], mark, scale, rate))
        }
    &&& money::fits_i64(paid_of(positions, mark, scale, rate))
    &&& money::fits_i64(received_of(positions, mark, scale, rate))
}

proof fn lemma_totals_grow(
    positions: Seq<(i64, PositionSide, i64)>,
    mark: int,
    scale: int,
    rate: int,
    k: int,
)
    requires
        0 <= k <= positions.len(),
    ensures
        0 <= paid_of(positions.take(k), mark, scale, rate) <= paid_of(
            positions,
            mark,
            scale,
            rate,
        ),
        0 <= received_of(positions.take(k), mark, scale, rate) <= received_of(
            positions,
            mark,
            scale,
            rate,
        ),
    decreases positions.len(),
{
    if positions.len() == 0 {
        assert(positions.take(k) =~= positions);
    } else if k == positions.len() {
        assert(positions.take(k) =~= positions);
        lemma_totals_grow(positions.drop_last(), mark, scale, rate, k - 1);
        assert(positions.drop_last().take(k - 1) =~= positions.drop_last());
    } else {
        assert(positions.drop_last().take(k) =~= positions.take(k));
        lemma_totals_grow(positions.drop_last(), mark, scale, rate, k);
    }
}

/// What a settlement consists of.
pub open spec fn settles(
    r: FundingSettlement,
    positions: Seq<(i64, PositionSide, i64)>,
    mark: int,
    scale: int,
    rate: int,
) -> bool {
    if rate == 0 {
        &&& r.deltas@.len() == 0
        &&& r.long_paid_atoms == 0
        &&& r.short_received_atoms == 0
        &&& r.residue_atoms == 0
    } else {
        &&& r.deltas@ == deltas_of(positions, mark, scale, rate)
        &&& r.long_paid_atoms == paid_of(positions, mark, scale, rate)
        &&& r.short_received_atoms == received_of(positions, mark, scale, rate)
        &&& r.residue_atoms == r.long_paid_atoms - r.short_received_atoms
    }
}

/// The settlement of one symbol, or `None` where it leaves machine arithmetic.
pub fn try_compute_settlement(
    positions: &Vec<(i64, PositionSide, i64)>,
    mark_ticks: i64,
    notional_scale: i64,
    rate_e9: i64,
) -> (r: Option<FundingSettlement>)
    ensures
        r is Some <==> rate_e9 == 0 || settlement_fits(
            positions@,
            mark_ticks as int,
            notional_scale as int,
            rate_e9 as int,
        ),
        r is Some ==> settles(
            r->0,
            positions@,
            mark_ticks as int,
            notional_scale as int,
            rate_e9 as int,
        ) && sum_of((r->0).deltas@) + (r->0).residue_atoms == 0,
{
    let mut out = FundingSettlement::default();
    if rate_e9 == 0 {
        return Some(out);
    }
    let ghost mark = mark_ticks as int;
    let ghost scale = notional_scale as int;
    let ghost rate = rate_e9 as int;
    let mut i: usize = 0;
    while i < positions.len()
        invariant
            0 <= i <= positions@.len(),
            mark == mark_ticks,
            scale == notional_scale,
            rate == rate_e9,
            rate != 0,
            forall|j: int|
                0 <= j < i ==> {
                    &&& crate::risk::calc::notional_fits(
                        mark,
                        (#[trigger] positions@[j]).2 as int,
                        scale,
                    )
                    &&& money::fits_i64(delta_of(positions@[j], mark, scale, rate))
                },
            out.deltas@ == deltas_of(positions@.take(i as int), mark, scale, rate),
            out.long_paid_atoms == paid_of(positions@.take(i as int), mark, scale, rate),
            out.short_received_atoms == received_of(positions@.take(i as int), mark, scale, rate),
            out.residue_atoms == 0,
            sum_of(out.deltas@) == out.short_received_atoms - out.long_paid_atoms,
            out.long_paid_atoms >= 0,
            out.short_received_atoms >= 0,
        decreases positions@.len() - i,
    {
        let (user_id, side, qty_lots) = positions[i];
        let ghost here = positions@.take(i + 1);
        proof {
            assert(here.drop_last() =~= positions@.take(i as int));
            assert(here.last() == positions@[i as int]);
            lemma_totals_grow(positions@, mark, scale, rate, i + 1);
        }
        if !crate::risk::calc::notional_in_range(mark_ticks, qty_lots, notional_scale) {
            proof {
                assert(!crate::risk::calc::notional_fits(
                    mark,
                    positions@[i as int].2 as int,
                    scale,
                ));
            }
            return None;
        }
        let p = compute_payment(qty_lots, mark_ticks, notional_scale, rate_e9);
        let delta = match side {
            PositionSide::Long => {
                if p == i64::MIN {
                    proof {
                        assert(!money::fits_i64(delta_of(positions@[i as int], mark, scale, rate)));
                    }
                    return None;
                }
                -p
            },
            PositionSide::Short => p,
        };
        if delta != 0 {
            if delta < 0 {
                let paid = out.long_paid_atoms as i128 - delta as i128;
                if paid > i64::MAX as i128 {
                    return None;
                }
                out.long_paid_atoms = paid as i64;
            } else {
                match out.short_received_atoms.checked_add(delta) {
                    Some(v) => {
                        out.short_received_atoms = v;
                    },
                    None => {
                        return None;
                    },
                }
            }
            let ghost before = out.deltas@;
            out.deltas.push(FundingDelta { user_id, equity_delta_atoms: delta });
            proof {
                assert(out.deltas@.drop_last() =~= before);
            }
        }
        i = i + 1;
    }
    proof {
        assert(positions@.take(i as int) =~= positions@);
    }
    out.residue_atoms = out.long_paid_atoms - out.short_received_atoms;
    Some(out)
}

/// The settlement of one symbol over `(user, side, lots)`. What rounding
/// leaves between payers and paid is the residue, so deltas and residue add up
/// to exactly zero.
pub fn compute_settlement(
    positions: &Vec<(i64, PositionSide, i64)>,
    mark_ticks: i64,
    notional_scale: i64,
    rate_e9: i64,
) -> (r: FundingSettlement)
    requires
        rate_e9 == 0 || settlement_fits(
            positions@,
            mark_ticks as int,
            notional_scale as int,
            rate_e9 as int,
        ),
    ensures
        settles(r, positions@, mark_ticks as int, notional_scale as int, rate_e9 as int),
        sum_of(r.deltas@) + r.residue_atoms == 0,
{
    match try_compute_settlement(positions, mark_ticks, notional_scale, rate_e9) {
        Some(out) => out,
        None => FundingSettlement::default(),
    }
}

/// The engine after the equity changes of a settlement.
pub open spec fn deltas_applied(
    v: crate::risk::engine::RiskView,
    deltas: Seq<FundingDelta>,
) -> crate::risk::engine::RiskView
    decreases deltas.len(),
{
    if deltas.len() == 0 {
        v
    } else {
        crate::risk::engine::cash_moved(
            deltas_applied(v, deltas.drop_last()),
            deltas.last().user_id,
            deltas.last().equity_delta_atoms,
        )
    }
}

/// Whether every account touched keeps its equity within 64 bits.
pub open spec fn deltas_fit(
    v: crate::risk::engine::RiskView,
    deltas: Seq<FundingDelta>,
) -> bool
    decreases deltas.len(),
{
    deltas.len() == 0 || {
        let w = deltas_applied(v, deltas.drop_last());
        let d = deltas.last();
        &&& deltas_fit(v, deltas.drop_last())
        &&& w.accounts.contains_key(d.user_id) ==> money::fits_i64(
            w.accounts[d.user_id].equity + d.equity_delta_atoms,
        )
    }
}

/// The engine after a settlement.
pub open spec fn settlement_applied(
    v: crate::risk::engine::RiskView,
    deltas: Seq<FundingDelta>,
    residue: i64,
) -> crate::risk::engine::RiskView {
    let w = deltas_applied(v, deltas);
    crate::risk::engine::RiskView { fund: crate::risk::engine::wrap_sum(w.fund, residue), ..w }
}

proof fn lemma_deltas_fit_prefix(
    v: crate::risk::engine::RiskView,
    deltas: Seq<FundingDelta>,
    k: int,
)
    requires
        0 <= k <= deltas.len(),
        deltas_fit(v, deltas),
    ensures
        deltas_fit(v, deltas.take(k)),
    decreases deltas.len(),
{
    if k == deltas.len() {
        assert(deltas.take(k) =~= deltas);
    } else {
        lemma_deltas_fit_prefix(v, deltas.drop_last(), k);
        assert(deltas.drop_last().take(k) =~= deltas.take(k));
    }
}

/// Books a settlement in memory: equity and available margin of each user move
/// by the delta, the residue goes to the fund. Tells whether all of it was
/// booked; where an equity would leave 64 bits it stops before that account.
pub fn try_apply_in_memory(engine: &mut RiskEngine, s: &FundingSettlement) -> (r: bool)
    requires
        old(engine).wf(),
    ensures
        final(engine).wf(),
        r == deltas_fit(old(engine).view(), s.deltas@),
        r ==> final(engine).view() == settlement_applied(
            old(engine).view(),
            s.deltas@,
            s.residue_atoms,
        ),
        !r ==> exists|k: int|
            {
                &&& 0 <= k < s.deltas@.len()
                &&& deltas_fit(old(engine).view(), s.deltas@.take(k))
                &&& !deltas_fit(old(engine).view(), s.deltas@.take(k + 1))
                &&& final(engine).view() == #[trigger] deltas_applied(
                    old(engine).view(),
                    s.deltas@.take(k),
                )
            },
{
    let ghost v = engine.view();
    let mut i: usize = 0;
    while i < s.deltas.len()
        invariant
            0 <= i <= s.deltas@.len(),
            engine.wf(),
            v == old(engine).view(),
            engine.view() == deltas_applied(v, s.deltas@.take(i as int)),
            deltas_fit(v, s.deltas@.take(i as int)),
        decreases s.deltas@.len() - i,
    {
        let d = s.deltas[i];
        let ghost here = s.deltas@.take(i + 1);
        proof {
            assert(here.drop_last() =~= s.deltas@.take(i as int));
            assert(here.last() == d);
        }
        if let Some(acct) = engine.account(d.user_id) {
            if acct.equity.checked_add(d.equity_delta_atoms).is_none() {
                proof {
                    assert(!deltas_fit(v, here));
                    if deltas_fit(v, s.deltas@) {
                        lemma_deltas_fit_prefix(v, s.deltas@, i + 1);
                    }
                }
                return false;
            }
        }
        engine.move_cash(d.user_id, d.equity_delta_atoms);
        i = i + 1;
    }
    proof {
        assert(s.deltas@.take(i as int) =~= s.deltas@);
    }
    engine.add_to_fund(s.residue_atoms);
    true
}

/// Books a settlement in memory.
pub fn apply_in_memory(engine: &mut RiskEngine, s: &FundingSettlement)
    requires
        old(engine).wf(),
        deltas_fit(old(engine).view(), s.deltas@),
    ensures
        final(engine).wf(),
        final(engine).view() == settlement_applied(
            old(engine).view(),
            s.deltas@,
            s.residue_atoms,
        ),
{
    let _booked = try_apply_in_memory(engine, s);
}

proof fn lemma_deltas_move_equity(
    v: crate::risk::engine::RiskView,
    deltas: Seq<FundingDelta>,
)
    requires
        v.consistent(),
        deltas_fit(v, deltas),
        forall|i: int|
            0 <= i < deltas.len() ==> v.accounts.contains_key((#[trigger] deltas[i]).user_id),
    ensures
        deltas_applied(v, deltas).consistent(),
        deltas_applied(v, deltas).accounts.dom() == v.accounts.dom(),
        deltas_applied(v, deltas).fund == v.fund,
        crate::risk::engine::total_equity(
            deltas_applied(v, deltas).accounts,
            v.accounts.dom(),
        ) == crate::risk::engine::total_equity(v.accounts, v.accounts.dom()) + sum_of(deltas),
    decreases deltas.len(),
{
    if deltas.len() > 0 {
        let rest = deltas.drop_last();
        assert forall|i: int| 0 <= i < rest.len() implies v.accounts.contains_key(
            (#[trigger] rest[i]).user_id,
        ) by {
            assert(rest[i] == deltas[i]);
        }
        lemma_deltas_move_equity(v, rest);
        let w = deltas_applied(v, rest);
        let d = deltas.last();
        assert(v.accounts.contains_key(deltas[deltas.len() - 1].user_id));
        assert(w.accounts.dom().contains(d.user_id));
        assert(w.accounts.contains_key(d.user_id));
        crate::risk::engine::law_cash_moves_total_equity(w, d.user_id, d.equity_delta_atoms);
    }
}

/// Booking a settlement creates and destroys nothing: where every user of the
/// settlement has an account, total equity and the insurance fund together are
/// what they were. The fund is kept modulo 2 to the 64th, and so is the law
/// where the fund leaves 64 bits.
pub proof fn law_funding_conserves_money(
    v: crate::risk::engine::RiskView,
    s: FundingSettlement,
)
    requires
        v.consistent(),
        deltas_fit(v, s.deltas@),
        sum_of(s.deltas@) + s.residue_atoms == 0,
        forall|i: int|
            0 <= i < s.deltas@.len() ==> v.accounts.contains_key(
                (#[trigger] s.deltas@[i]).user_id,
            ),
    ensures
        ({
            let w = settlement_applied(v, s.deltas@, s.residue_atoms);
            let before = crate::risk::engine::total_equity(v.accounts, v.accounts.dom()) + v.fund;
            let after = crate::risk::engine::total_equity(w.accounts, w.accounts.dom()) + w.fund;
            &&& crate::risk::engine::same_word(after, before)
            &&& money::fits_i64(v.fund + s.residue_atoms) ==> after == before
        }),
{
    lemma_deltas_move_equity(v, s.deltas@);
}

/// The settlement schedule of one symbol.
#[derive(Debug, Clone, Copy)]
pub struct FundingScheduler {
    pub next_settlement_at_ms: i64,
    pub period_ms: i64,
}

/// What a schedule answers at a time: the boundary to settle, and the schedule
/// moved on by one period; nothing before the boundary.
pub open spec fn due_at(s: FundingScheduler, now_ms: int) -> (Option<i64>, FundingScheduler) {
    if now_ms < s.next_settlement_at_ms {
        (None, s)
    } else {
        (
            Some(s.next_settlement_at_ms),
            FundingScheduler {
                next_settlement_at_ms: (s.next_settlement_at_ms + s.period_ms) as i64,
                ..s
            },
        )
    }
}

impl FundingScheduler {
    /// Resumes at the persisted boundary, or one full period from now where
    /// there is none.
    pub fn new(persisted_next_ms: Option<i64>, now_ms: i64, cfg: &FundingConfig) -> (r:
        FundingScheduler)
        requires
            (cfg.period_secs as i64) * 1000 <= i64::MAX,
            (cfg.period_secs as i64) * 1000 >= i64::MIN,
            money::fits_i64(now_ms + (cfg.period_secs as i64) * 1000),
        ensures
            r.period_ms == (cfg.period_secs as i64) * 1000,
            r.next_settlement_at_ms == (match persisted_next_ms {
                Some(at) => at as int,
                None => now_ms + r.period_ms,
            }),
    {
        let period_ms = cfg.period_secs as i64 * 1000;
        let first = now_ms + period_ms;
        FundingScheduler {
            next_settlement_at_ms: match persisted_next_ms {
                Some(at) => at,
                None => first,
            },
            period_ms,
        }
    }

    /// The boundary that has passed, one per call.
    pub fn due(&mut self, now_ms: i64) -> (r: Option<i64>)
        requires
            now_ms >= old(self).next_settlement_at_ms ==> money::fits_i64(
                old(self).next_settlement_at_ms + old(self).period_ms,
            ),
        ensures
            (r, *final(self)) == due_at(*old(self), now_ms as int),
    {
        if now_ms < self.next_settlement_at_ms {
            return None;
        }
        let boundary = self.next_settlement_at_ms;
        self.next_settlement_at_ms = self.next_settlement_at_ms + self.period_ms;
        Some(boundary)
    }
}

/// A schedule never settles early, and two boundaries settled one after the
/// other are exactly one period apart: none is skipped and none is repeated,
/// however late the calls come.
pub proof fn law_schedule_skips_and_repeats_nothing(
    s: FundingScheduler,
    first_ms: int,
    second_ms: int,
)
    requires
        s.period_ms > 0,
        s.next_settlement_at_ms + s.period_ms <= i64::MAX,
    ensures
        ({
            let (a, t) = due_at(s, first_ms);
            let (b, _) = due_at(t, second_ms);
            &&& a is Some ==> a->0 == s.next_settlement_at_ms && a->0 <= first_ms
            &&& a is None ==> t == s
            &&& a is None <==> first_ms < s.next_settlement_at_ms
            &&& a is Some && b is Some ==> b->0 == a->0 + s.period_ms && b->0 <= second_ms
            &&& a is Some && b is None ==> second_ms < a->0 + s.period_ms
        }),
{
}

/// A premium times the index is the gap between mark and index, less than the
/// index apart: positive where the mark trades above the index.
pub proof fn law_premium_is_the_relative_gap(mark: int, index: int)
    requires
        index > 0,
    ensures
        -index < premium_of(mark, index) * index - (mark - index) * 1_000_000_000 < index,
        mark >= index ==> premium_of(mark, index) >= 0,
        mark <= index ==> premium_of(mark, index) <= 0,
{
    money::law_division_rounds_toward_zero((mark - index) * RATE_SCALE_E9, index);
}

/// The mean of the samples times their number is their sum, less than their
/// number apart, and lies on the same side of zero; without samples it is zero.
pub proof fn law_mean_spreads_the_sum(t: PremiumTracker)
    requires
        0 <= t.count(),
        -(i64::MAX * t.count()) <= t.sum() <= i64::MAX * t.count(),
    ensures
        t.count() == 0 ==> t.mean() == 0,
        t.count() > 0 ==> {
            &&& -t.count() < t.mean() * t.count() - t.sum() < t.count()
            &&& t.sum() >= 0 ==> t.mean() >= 0
            &&& t.sum() <= 0 ==> t.mean() <= 0
        },
{
    if t.count() > 0 {
        let n = t.count();
        let s = t.sum();
        money::law_division_rounds_toward_zero(s, n);
        let q = money::trunc_div(s, n);
        assert(-i64::MAX <= q <= i64::MAX) by (nonlinear_arith)
            requires
                n > 0,
                -(i64::MAX * n) <= s <= i64::MAX * n,
                s >= 0 ==> 0 <= q && q * n <= s,
                s <= 0 ==> q <= 0 && s <= q * n,
        ;
    }
}

/// A clamped rate lies within the bounds and is the closest to the rate that
/// does.
pub proof fn law_clamp_keeps_what_is_within(v: int, bound: int, other: int)
    requires
        bound >= 0,
    ensures
        -bound <= clamp_to(v, bound) <= bound,
        -bound <= v <= bound ==> clamp_to(v, bound) == v,
        v > bound ==> clamp_to(v, bound) == bound,
        v < -bound ==> clamp_to(v, bound) == -bound,
        -bound <= other <= bound && other >= v ==> clamp_to(v, bound) <= other,
        -bound <= other <= bound && other <= v ==> clamp_to(v, bound) >= other,
{
}

/// Whether the funding payment of a position is a 64-bit amount.
pub open spec fn payment_fits(lots: int, mark: int, scale: int, rate: int) -> bool {
    &&& crate::risk::value::worth_fits(mark, lots, scale)
    &&& -(i64::MAX * (scale * 1_000_000_000)) <= mark * lots * 1_000_000 * rate <= i64::MAX * (scale
        * 1_000_000_000)
}

proof fn lemma_payment(lots: int, mark: int, scale: int, rate: int)
    requires
        scale > 0,
        payment_fits(lots, mark, scale, rate),
    ensures
        ({
            let p = payment(lots, mark, scale, rate);
            let size: int = if rate < 0 {
                -rate
            } else {
                rate
            };
            let raw = mark * lots * 1_000_000;
            &&& -(1_000_000_000 * scale + size * scale) < p * 1_000_000_000 * scale - raw * rate
                < 1_000_000_000 * scale + size * scale
            &&& raw >= 0 && rate >= 0 || raw <= 0 && rate <= 0 ==> p >= 0
            &&& raw >= 0 && rate <= 0 || raw <= 0 && rate >= 0 ==> p <= 0
            &&& payment(lots, mark, scale, -rate) == -p
            &&& -i64::MAX <= p
        }),
{
    let n = crate::risk::calc::notional(mark, lots, scale);
    let raw = mark * lots * 1_000_000;
    crate::risk::value::lemma_notional(mark, lots, scale);
    money::law_division_rounds_toward_zero(n * rate, RATE_SCALE_E9 as int);
    let p = money::trunc_div(n * rate, RATE_SCALE_E9 as int);
    let e9 = 1_000_000_000int;
    assert(n * -rate == -(n * rate)) by (nonlinear_arith);
    let size: int = if rate < 0 {
        -rate
    } else {
        rate
    };
    assert(raw >= 0 ==> n >= 0) by (nonlinear_arith)
        requires
            scale > 0,
            raw >= 0 ==> 0 <= n * scale,
    ;
    assert(raw <= 0 ==> n <= 0) by (nonlinear_arith)
        requires
            scale > 0,
            raw <= 0 ==> n * scale <= 0,
    ;
    assert(raw >= 0 && rate >= 0 || raw <= 0 && rate <= 0 ==> n * rate >= 0) by (nonlinear_arith)
        requires
            raw >= 0 ==> n >= 0,
            raw <= 0 ==> n <= 0,
    ;
    assert(raw >= 0 && rate <= 0 || raw <= 0 && rate >= 0 ==> n * rate <= 0) by (nonlinear_arith)
        requires
            raw >= 0 ==> n >= 0,
            raw <= 0 ==> n <= 0,
    ;
    let whole = raw * rate;
    let k = n * rate;
    assert(-(size * scale) <= k * scale - whole <= size * scale) by (nonlinear_arith)
        requires
            k == n * rate,
            whole == raw * rate,
            size == (if rate < 0 {
                -rate
            } else {
                rate
            }),
            -scale < n * scale - raw < scale,
            scale > 0,
    ;
    assert(-(e9 * scale) < p * e9 * scale - k * scale < e9 * scale) by (nonlinear_arith)
        requires
            -e9 < p * e9 - k < e9,
            scale > 0,
    ;
    assert(k >= 0 ==> k * scale <= whole || whole <= 0) by (nonlinear_arith)
        requires
            k == n * rate,
            whole == raw * rate,
            scale > 0,
            raw >= 0 ==> 0 <= n * scale <= raw,
            raw <= 0 ==> raw <= n * scale <= 0,
    ;
    lemma_smaller_product(n, raw, scale, rate);
    assert(-i64::MAX <= p <= i64::MAX) by (nonlinear_arith)
        requires
            scale > 0,
            e9 == 1_000_000_000,
            k >= 0 ==> 0 <= p && p * e9 <= k,
            k <= 0 ==> p <= 0 && k <= p * e9,
            k >= 0 ==> k * scale <= i64::MAX * (scale * e9),
            k <= 0 ==> -(i64::MAX * (scale * e9)) <= k * scale,
    ;
}

proof fn lemma_smaller_product(n: int, raw: int, scale: int, rate: int)
    requires
        scale > 0,
        raw >= 0 ==> 0 <= n * scale <= raw,
        raw <= 0 ==> raw <= n * scale <= 0,
        -(i64::MAX * (scale * 1_000_000_000)) <= raw * rate <= i64::MAX * (scale * 1_000_000_000),
    ensures
        -(i64::MAX * (scale * 1_000_000_000)) <= n * rate * scale <= i64::MAX * (scale
            * 1_000_000_000),
{
    let m = n * scale;
    let top = i64::MAX * (scale * 1_000_000_000);
    assert(n * rate * scale == m * rate) by (nonlinear_arith)
        requires
            m == n * scale,
    ;
    assert(top >= 0) by (nonlinear_arith)
        requires
            top == i64::MAX * (scale * 1_000_000_000),
            scale > 0,
    ;
    assert(-top <= m * rate <= top) by (nonlinear_arith)
        requires
            raw >= 0 ==> 0 <= m <= raw,
            raw <= 0 ==> raw <= m <= 0,
            -top <= raw * rate <= top,
            top >= 0,
    ;
}

/// At a positive rate longs pay and shorts are paid, at a negative one shorts
/// pay and longs are paid. The equity changes by the rate times the value of
/// the position at the mark, up to the rounding of the two divisions. A long
/// and a short of the same lots cancel out, and negating the rate negates the
/// change.
pub proof fn law_funding_flows_with_the_sign_of_the_rate(
    user_id: i64,
    lots: i64,
    mark: int,
    scale: int,
    rate: int,
)
    requires
        lots >= 0,
        mark >= 0,
        scale > 0,
        payment_fits(lots as int, mark, scale, rate),
    ensures
        ({
            let long = delta_of((user_id, PositionSide::Long, lots), mark, scale, rate);
            let short = delta_of((user_id, PositionSide::Short, lots), mark, scale, rate);
            let size: int = if rate < 0 {
                -rate
            } else {
                rate
            };
            &&& rate >= 0 ==> long <= 0 && short >= 0
            &&& rate <= 0 ==> long >= 0 && short <= 0
            &&& long + short == 0
            &&& -(1_000_000_000 * scale + size * scale) < short * 1_000_000_000 * scale - mark * lots
                * 1_000_000 * rate < 1_000_000_000 * scale + size * scale
            &&& delta_of((user_id, PositionSide::Long, lots), mark, scale, -rate) == -long
            &&& delta_of((user_id, PositionSide::Short, lots), mark, scale, -rate) == -short
        }),
{
    assert(mark * lots * 1_000_000 >= 0) by (nonlinear_arith)
        requires
            mark >= 0,
            lots >= 0,
    ;
    lemma_payment(lots as int, mark, scale, rate);
}

/// What the users of a settlement that pay pay in total.
pub open spec fn outflow(deltas: Seq<FundingDelta>) -> int
    decreases deltas.len(),
{
    if deltas.len() == 0 {
        0
    } else {
        outflow(deltas.drop_last()) + (if deltas.last().equity_delta_atoms < 0 {
            -deltas.last().equity_delta_atoms
        } else {
            0
        })
    }
}

proof fn lemma_delta_negates(position: (i64, PositionSide, i64), mark: int, scale: int, rate: int)
    requires
        scale > 0,
        payment_fits(position.2 as int, mark, scale, rate),
    ensures
        delta_of(position, mark, scale, -rate) == -delta_of(position, mark, scale, rate),
        -i64::MAX <= delta_of(position, mark, scale, rate) <= i64::MAX,
{
    lemma_payment(position.2 as int, mark, scale, rate);
}

/// Every payment of a list of positions is a 64-bit amount.
pub open spec fn payments_fit(
    positions: Seq<(i64, PositionSide, i64)>,
    mark: int,
    scale: int,
    rate: int,
) -> bool {
    forall|k: int|
        0 <= k < positions.len() ==> payment_fits(
            (#[trigger] positions[k]).2 as int,
            mark,
            scale,
            rate,
        )
}

proof fn lemma_payments_fit_rest(
    positions: Seq<(i64, PositionSide, i64)>,
    mark: int,
    scale: int,
    rate: int,
)
    requires
        positions.len() > 0,
        payments_fit(positions, mark, scale, rate),
    ensures
        payments_fit(positions.drop_last(), mark, scale, rate),
        payment_fits(positions.last().2 as int, mark, scale, rate),
{
    let rest = positions.drop_last();
    assert forall|j: int| 0 <= j < rest.len() implies payment_fits(
        (#[trigger] rest[j]).2 as int,
        mark,
        scale,
        rate,
    ) by {
        assert(rest[j] == positions[j]);
    }
    assert(positions.last() == positions[positions.len() - 1]);
}

proof fn lemma_deltas_mirror(
    positions: Seq<(i64, PositionSide, i64)>,
    mark: int,
    scale: int,
    rate: int,
)
    requires
        scale > 0,
        payments_fit(positions, mark, scale, rate),
    ensures
        ({
            let a = deltas_of(positions, mark, scale, rate);
            let b = deltas_of(positions, mark, scale, -rate);
            &&& a.len() == b.len()
            &&& a.len() <= positions.len()
            &&& forall|i: int|
                0 <= i < a.len() ==> (#[trigger] a[i]).user_id == b[i].user_id
                    && a[i].equity_delta_atoms == -b[i].equity_delta_atoms
                    && a[i].equity_delta_atoms != 0
            &&& paid_of(positions, mark, scale, rate) == received_of(positions, mark, scale, -rate)
            &&& received_of(positions, mark, scale, rate) == paid_of(positions, mark, scale, -rate)
            &&& paid_of(positions, mark, scale, rate) == outflow(a)
            &&& sum_of(a) == received_of(positions, mark, scale, rate) - paid_of(
                positions,
                mark,
                scale,
                rate,
            )
        }),
    decreases positions.len(),
{
    if positions.len() > 0 {
        let rest = positions.drop_last();
        lemma_payments_fit_rest(positions, mark, scale, rate);
        lemma_deltas_mirror(rest, mark, scale, rate);
        let last = positions.last();
        lemma_delta_negates(last, mark, scale, rate);
        let a = deltas_of(positions, mark, scale, rate);
        let b = deltas_of(positions, mark, scale, -rate);
        if delta_of(last, mark, scale, rate) != 0 {
            assert(a.drop_last() =~= deltas_of(rest, mark, scale, rate));
            assert(b.drop_last() =~= deltas_of(rest, mark, scale, -rate));
        }
    }
}

/// `d` is the change that one of the positions calls for.
pub open spec fn change_of_some(
    positions: Seq<(i64, PositionSide, i64)>,
    d: FundingDelta,
    mark: int,
    scale: int,
    rate: int,
) -> bool {
    exists|j: int|
        0 <= j < positions.len() && (#[trigger] positions[j]).0 == d.user_id
            && d.equity_delta_atoms == delta_of(positions[j], mark, scale, rate)
}

proof fn lemma_deltas_belong(
    positions: Seq<(i64, PositionSide, i64)>,
    mark: int,
    scale: int,
    rate: int,
    i: int,
)
    requires
        scale > 0,
        payments_fit(positions, mark, scale, rate),
        0 <= i < deltas_of(positions, mark, scale, rate).len(),
    ensures
        change_of_some(positions, deltas_of(positions, mark, scale, rate)[i], mark, scale, rate),
    decreases positions.len(),
{
    let rest = positions.drop_last();
    let a = deltas_of(positions, mark, scale, rate);
    let ra = deltas_of(rest, mark, scale, rate);
    lemma_payments_fit_rest(positions, mark, scale, rate);
    lemma_delta_negates(positions.last(), mark, scale, rate);
    if i < ra.len() {
        lemma_deltas_belong(rest, mark, scale, rate, i);
        assert(a[i] == ra[i]);
        let j = choose|j: int|
            0 <= j < rest.len() && (#[trigger] rest[j]).0 == ra[i].user_id
                && ra[i].equity_delta_atoms == delta_of(rest[j], mark, scale, rate);
        assert(positions[j] == rest[j]);
    } else {
        assert(positions[positions.len() - 1].0 == a[i].user_id);
    }
}

proof fn lemma_deltas_cover(
    positions: Seq<(i64, PositionSide, i64)>,
    mark: int,
    scale: int,
    rate: int,
    j: int,
)
    requires
        scale > 0,
        payments_fit(positions, mark, scale, rate),
        0 <= j < positions.len(),
        delta_of(positions[j], mark, scale, rate) != 0,
    ensures
        exists|i: int|
            0 <= i < deltas_of(positions, mark, scale, rate).len() && (#[trigger] deltas_of(
                positions,
                mark,
                scale,
                rate,
            )[i]).user_id == positions[j].0,
    decreases positions.len(),
{
    let rest = positions.drop_last();
    let a = deltas_of(positions, mark, scale, rate);
    let ra = deltas_of(rest, mark, scale, rate);
    lemma_payments_fit_rest(positions, mark, scale, rate);
    if j < rest.len() {
        assert(rest[j] == positions[j]);
        lemma_deltas_cover(rest, mark, scale, rate, j);
        let i = choose|i: int| 0 <= i < ra.len() && (#[trigger] ra[i]).user_id == rest[j].0;
        assert(a[i] == ra[i]);
    } else {
        assert(a[a.len() - 1].user_id == positions[j].0);
    }
}

/// The size of a rate.
pub open spec fn magnitude(rate: int) -> int {
    if rate < 0 {
        -rate
    } else {
        rate
    }
}

proof fn lemma_large_payment(position: (i64, PositionSide, i64), mark: int, scale: int, rate: int)
    requires
        position.2 >= 0,
        mark >= 0,
        scale > 0,
        rate != 0,
        payment_fits(position.2 as int, mark, scale, rate),
        mark * position.2 * 1_000_000 * magnitude(rate) >= 2_000_000_000 * scale + magnitude(
            rate,
        ) * scale,
    ensures
        delta_of(position, mark, scale, rate) != 0,
{
    let raw = mark * position.2 * 1_000_000;
    let p = payment(position.2 as int, mark, scale, rate);
    lemma_payment(position.2 as int, mark, scale, rate);
    let size = magnitude(rate);
    if rate < 0 {
        assert(raw * rate == -(raw * size)) by (nonlinear_arith)
            requires
                size == -rate,
        ;
    } else {
        assert(raw * rate == raw * size) by (nonlinear_arith)
            requires
                size == rate,
        ;
    }
    assert(size * scale >= 0) by (nonlinear_arith)
        requires
            size >= 0,
            scale > 0,
    ;
    if p == 0 {
        assert(p * 1_000_000_000 * scale == 0) by (nonlinear_arith)
            requires
                p == 0,
        ;
        assert(-(1_000_000_000 * scale + size * scale) < -(raw * rate) < 1_000_000_000 * scale
            + size * scale);
        assert(raw * size >= 2_000_000_000 * scale + size * scale);
        assert(raw * size < 1_000_000_000 * scale + size * scale);
    }
}

/// A settlement pays each user by the sign of the rate and the side they are
/// on: every change belongs to a position, and every position that is worth
/// enough at the rate gets its change. What payers pay beyond what the others
/// are paid is the residue.
pub proof fn law_settlement_pays_by_side(
    s: FundingSettlement,
    positions: Seq<(i64, PositionSide, i64)>,
    mark: int,
    scale: int,
    rate: int,
    j: int,
)
    requires
        mark >= 0,
        scale > 0,
        forall|k: int| 0 <= k < positions.len() ==> (#[trigger] positions[k]).2 >= 0,
        payments_fit(positions, mark, scale, rate),
        settles(s, positions, mark, scale, rate),
    ensures
        s.deltas@.len() <= positions.len(),
        forall|i: int|
            0 <= i < s.deltas@.len() ==> (#[trigger] s.deltas@[i]).equity_delta_atoms != 0
                && exists|k: int|
                0 <= k < positions.len() && (#[trigger] positions[k]).0 == s.deltas@[i].user_id && (
                rate > 0 ==> (s.deltas@[i].equity_delta_atoms < 0 <==> positions[k].1
                    == PositionSide::Long)) && (rate < 0 ==> (s.deltas@[i].equity_delta_atoms < 0
                    <==> positions[k].1 == PositionSide::Short)),
        rate == 0 ==> s.deltas@.len() == 0,
        s.long_paid_atoms == outflow(s.deltas@),
        s.residue_atoms == s.long_paid_atoms - s.short_received_atoms,
        sum_of(s.deltas@) + s.residue_atoms == 0,
        0 <= j < positions.len() && rate != 0 && mark * positions[j].2 * 1_000_000 * magnitude(rate)
            >= 2_000_000_000 * scale + magnitude(rate) * scale ==> exists|i: int|
            0 <= i < s.deltas@.len() && (#[trigger] s.deltas@[i]).user_id == positions[j].0,
{
    if rate != 0 {
        lemma_deltas_mirror(positions, mark, scale, rate);
        assert forall|i: int| 0 <= i < s.deltas@.len() implies (
        #[trigger] s.deltas@[i]).equity_delta_atoms != 0 && exists|k: int|
            0 <= k < positions.len() && (#[trigger] positions[k]).0 == s.deltas@[i].user_id && (rate
                > 0 ==> (s.deltas@[i].equity_delta_atoms < 0 <==> positions[k].1
                == PositionSide::Long)) && (rate < 0 ==> (s.deltas@[i].equity_delta_atoms < 0
                <==> positions[k].1 == PositionSide::Short)) by {
            lemma_deltas_belong(positions, mark, scale, rate, i);
            let d = s.deltas@[i];
            let k = choose|k: int|
                0 <= k < positions.len() && (#[trigger] positions[k]).0 == d.user_id
                    && d.equity_delta_atoms == delta_of(positions[k], mark, scale, rate);
            law_funding_flows_with_the_sign_of_the_rate(
                positions[k].0,
                positions[k].2,
                mark,
                scale,
                rate,
            );
        }
        if 0 <= j < positions.len() && mark * positions[j].2 * 1_000_000 * magnitude(rate) >= 2_000_000_000
            * scale + magnitude(rate) * scale {
            lemma_large_payment(positions[j], mark, scale, rate);
            lemma_deltas_cover(positions, mark, scale, rate, j);
        }
    } else {
        assert(s.deltas@ =~= Seq::empty());
    }
}

/// Negating the rate turns a settlement round: the same users are touched, each
/// by the negated amount, and what was paid is now received.
pub proof fn law_negated_rate_mirrors_the_settlement(
    s: FundingSettlement,
    m: FundingSettlement,
    positions: Seq<(i64, PositionSide, i64)>,
    mark: int,
    scale: int,
    rate: int,
)
    requires
        scale > 0,
        payments_fit(positions, mark, scale, rate),
        settles(s, positions, mark, scale, rate),
        settles(m, positions, mark, scale, -rate),
    ensures
        s.deltas@.len() == m.deltas@.len(),
        forall|i: int|
            0 <= i < s.deltas@.len() ==> (#[trigger] s.deltas@[i]).user_id == m.deltas@[i].user_id
                && s.deltas@[i].equity_delta_atoms == -m.deltas@[i].equity_delta_atoms,
        s.long_paid_atoms == m.short_received_atoms,
        s.short_received_atoms == m.long_paid_atoms,
        s.residue_atoms == -m.residue_atoms,
{
    lemma_deltas_mirror(positions, mark, scale, rate);
}

/// What a settlement changes for one user.
pub open spec fn change_for(deltas: Seq<FundingDelta>, user_id: i64) -> int
    decreases deltas.len(),
{
    if deltas.len() == 0 {
        0
    } else {
        change_for(deltas.drop_last(), user_id) + (if deltas.last().user_id == user_id {
            deltas.last().equity_delta_atoms as int
        } else {
            0
        })
    }
}

/// A booked settlement changes the equity of each account by exactly what it
/// holds for its user, and leaves margins in use, open results and positions
/// alone.
pub proof fn law_settlement_reaches_each_account(
    v: crate::risk::engine::RiskView,
    deltas: Seq<FundingDelta>,
    residue: i64,
    user_id: i64,
)
    requires
        deltas_fit(v, deltas),
        v.accounts.contains_key(user_id),
    ensures
        ({
            let w = settlement_applied(v, deltas, residue);
            let a = v.accounts[user_id];
            let b = w.accounts[user_id];
            &&& b.equity == a.equity + change_for(deltas, user_id)
            &&& b.used_margin == a.used_margin && b.order_margin == a.order_margin
            &&& b.maintenance_margin == a.maintenance_margin
            &&& b.unrealized_pnl == a.unrealized_pnl && b.status == a.status
            &&& w.positions == v.positions && w.marks == v.marks
            &&& w.accounts.dom() == v.accounts.dom()
            &&& (w.fund - v.fund - residue) % 0x1_0000_0000_0000_0000 == 0
        }),
    decreases deltas.len(),
{
    if deltas.len() > 0 {
        law_settlement_reaches_each_account(v, deltas.drop_last(), residue, user_id);
    }
    let w = deltas_applied(v, deltas);
    assert(w.accounts.dom() =~= v.accounts.dom());
}

} // verus!
