//! Account and position invariants across the stores.
use crate::text;
use vstd::prelude::*;

verus! {

/// How far the fixed-point and floating columns of a row may differ, in atoms.
pub const DRIFT_TOLERANCE_ATOMS: i64 = 10;

/// How many rows of a kind a report lists.
pub const REPORT_ROW_LIMIT: usize = 100;

/// Funds frozen for a user who has no open order.
#[derive(Debug)]
pub struct HangingFrozenRow {
    pub user_id: i64,
    pub asset: String,
    pub frozen_atoms: i64,
}

/// What the account checks found.
#[derive(Debug)]
pub struct ReconcileReport {
    pub hanging_frozen_total: i64,
    pub hanging_frozen: Vec<HangingFrozenRow>,
    /// Orders whose floating and fixed-point columns differ.
    pub orders_drift_total: i64,
    pub orders_drift_ids: Vec<i64>,
    /// Trades whose floating and fixed-point columns differ.
    pub trades_drift_total: i64,
    pub trades_drift_ids: Vec<i64>,
    /// Orders filled beyond their quantity.
    pub orders_overfill_total: i64,
    pub orders_overfill_ids: Vec<i64>,
}

impl ReconcileReport {
    pub open spec fn clean(&self) -> bool {
        self.hanging_frozen_total == 0 && self.orders_drift_total == 0 && self.trades_drift_total
            == 0 && self.orders_overfill_total == 0
    }

    pub fn is_clean(&self) -> (r: bool)
        ensures
            r == self.clean(),
    {
        self.hanging_frozen_total == 0 && self.orders_drift_total == 0 && self.trades_drift_total
            == 0 && self.orders_overfill_total == 0
    }
}

impl Default for ReconcileReport {
    fn default() -> (r: ReconcileReport)
        ensures
            r.clean(),
            r.hanging_frozen@.len() == 0,
            r.orders_drift_ids@.len() == 0,
            r.trades_drift_ids@.len() == 0,
            r.orders_overfill_ids@.len() == 0,
    {
        ReconcileReport {
            hanging_frozen_total: 0,
            hanging_frozen: Vec::new(),
            orders_drift_total: 0,
            orders_drift_ids: Vec::new(),
            trades_drift_total: 0,
            trades_drift_ids: Vec::new(),
            orders_overfill_total: 0,
            orders_overfill_ids: Vec::new(),
        }
    }
}

/// An account that the two stores hold differently.
#[derive(Debug)]
pub struct CrossStoreMismatch {
    pub user_id: i64,
    pub asset: String,
    pub pg_balance_atoms: i64,
    pub pg_frozen_atoms: i64,
    pub redis_balance_atoms: Option<i64>,
    pub redis_frozen_atoms: Option<i64>,
}

#[verifier::ext_equal]
pub struct MismatchView {
    pub user_id: i64,
    pub asset: Seq<char>,
    pub pg_balance_atoms: i64,
    pub pg_frozen_atoms: i64,
    pub redis_balance_atoms: Option<i64>,
    pub redis_frozen_atoms: Option<i64>,
}

impl CrossStoreMismatch {
    pub open spec fn view(&self) -> MismatchView {
        MismatchView {
            user_id: self.user_id,
            asset: self.asset@,
            pg_balance_atoms: self.pg_balance_atoms,
            pg_frozen_atoms: self.pg_frozen_atoms,
            redis_balance_atoms: self.redis_balance_atoms,
            redis_frozen_atoms: self.redis_frozen_atoms,
        }
    }
}

pub open spec fn mismatch_views(s: Seq<CrossStoreMismatch>) -> Seq<MismatchView> {
    s.map_values(|m: CrossStoreMismatch| m.view())
}

/// Accounts of the relational store held against the cache.
#[derive(Debug)]
pub struct CrossStoreReport {
    pub compared: u64,
    pub missing_in_redis: u64,
    pub mismatched_total: u64,
    /// The first of the mismatched, up to the limit.
    pub mismatched: Vec<CrossStoreMismatch>,
}

impl CrossStoreReport {
    pub open spec fn clean(&self) -> bool {
        self.missing_in_redis == 0 && self.mismatched_total == 0
    }

    pub fn is_clean(&self) -> (r: bool)
        ensures
            r == self.clean(),
    {
        self.missing_in_redis == 0 && self.mismatched_total == 0
    }
}

impl Default for CrossStoreReport {
    fn default() -> (r: CrossStoreReport)
        ensures
            r.clean(),
            r.compared == 0,
            r.mismatched@.len() == 0,
    {
        CrossStoreReport {
            compared: 0,
            missing_in_redis: 0,
            mismatched_total: 0,
            mismatched: Vec::new(),
        }
    }
}

/// An account row of the relational store: user, asset, balance, frozen.
pub type AccountTuple = (i64, String, i64, i64);

/// What the cache holds of an account: balance and frozen, where present.
pub type CachedAccount = (Option<i64>, Option<i64>);

/// The cache lacks an account that holds funds.
pub open spec fn is_missing(row: AccountTuple, cached: CachedAccount) -> bool {
    cached.0 is None && cached.1 is None && (row.2 != 0 || row.3 != 0)
}

/// The cache has the account, with other amounts; an absent amount is zero.
pub open spec fn is_mismatch(row: AccountTuple, cached: CachedAccount) -> bool {
    !(cached.0 is None && cached.1 is None) && (crate::pg_store::or_zero(cached.0) != row.2
        || crate::pg_store::or_zero(cached.1) != row.3)
}

pub open spec fn mismatch_of(row: AccountTuple, cached: CachedAccount) -> MismatchView {
    MismatchView {
        user_id: row.0,
        asset: row.1@,
        pg_balance_atoms: row.2,
        pg_frozen_atoms: row.3,
        redis_balance_atoms: cached.0,
        redis_frozen_atoms: cached.1,
    }
}

/// How many accounts the cache lacks.
pub open spec fn missing_count(rows: Seq<AccountTuple>, cached: Seq<CachedAccount>) -> nat
    decreases rows.len(),
{
    if rows.len() == 0 {
        0
    } else {
        let k = rows.len() - 1;
        missing_count(rows.drop_last(), cached) + (if is_missing(rows[k], cached[k]) {
            1nat
        } else {
            0nat
        })
    }
}

/// The accounts that the two stores hold differently.
pub open spec fn mismatches(rows: Seq<AccountTuple>, cached: Seq<CachedAccount>) -> Seq<MismatchView>
    decreases rows.len(),
{
    if rows.len() == 0 {
        seq![]
    } else {
        let k = rows.len() - 1;
        let rest = mismatches(rows.drop_last(), cached);
        if is_mismatch(rows[k], cached[k]) {
            rest.push(mismatch_of(rows[k], cached[k]))
        } else {
            rest
        }
    }
}

/// At most the first hundred of a list.
pub open spec fn sample(s: Seq<MismatchView>) -> Seq<MismatchView> {
    if s.len() > REPORT_ROW_LIMIT {
        s.take(REPORT_ROW_LIMIT as int)
    } else {
        s
    }
}

/// Holds accounts of the relational store against the cache.
pub fn check_pg_redis_accounts(rows: &Vec<AccountTuple>, cached: &Vec<CachedAccount>) -> (r:
    CrossStoreReport)
    requires
        cached@.len() == rows@.len(),
    ensures
        r.compared == rows@.len(),
        r.missing_in_redis == missing_count(rows@, cached@),
        r.mismatched_total == mismatches(rows@, cached@).len(),
        mismatch_views(r.mismatched@) == sample(mismatches(rows@, cached@)),
{
    let mut missing: u64 = 0;
    let mut total: u64 = 0;
    let mut listed: Vec<CrossStoreMismatch> = Vec::new();
    let mut i: usize = 0;
    proof {
        assert(rows@.take(0) =~= seq![]);
        assert(mismatch_views(listed@) =~= seq![]);
    }
    while i < rows.len()
        invariant
            i <= rows@.len(),
            cached@.len() == rows@.len(),
            missing == missing_count(rows@.take(i as int), cached@),
            total == mismatches(rows@.take(i as int), cached@).len(),
            mismatch_views(listed@) == sample(mismatches(rows@.take(i as int), cached@)),
            missing <= i,
            total <= i,
        decreases rows@.len() - i,
    {
        let ghost before = listed@;
        let ghost all = mismatches(rows@.take(i as int), cached@);
        proof {
            assert(rows@.take(i + 1).drop_last() =~= rows@.take(i as int));
            assert(rows@.take(i + 1)[i as int] == rows@[i as int]);
        }
        let row = &rows[i];
        let (balance, frozen) = cached[i];
        if balance.is_none() && frozen.is_none() {
            if row.2 != 0 || row.3 != 0 {
                missing = missing + 1;
            }
        } else {
            let b = match balance {
                Some(v) => v,
                None => 0,
            };
            let f = match frozen {
                Some(v) => v,
                None => 0,
            };
            if b != row.2 || f != row.3 {
                total = total + 1;
                if listed.len() < REPORT_ROW_LIMIT {
                    listed.push(
                        CrossStoreMismatch {
                            user_id: row.0,
                            asset: text::owned(row.1.as_str()),
                            pg_balance_atoms: row.2,
                            pg_frozen_atoms: row.3,
                            redis_balance_atoms: balance,
                            redis_frozen_atoms: frozen,
                        },
                    );
                    proof {
                        assert(mismatch_views(listed@) =~= mismatch_views(before).push(
                            mismatch_of(rows@[i as int], cached@[i as int]),
                        ));
                    }
                }
                proof {
                    assert(mismatch_views(listed@) =~= sample(
                        all.push(mismatch_of(rows@[i as int], cached@[i as int])),
                    ));
                }
            }
        }
        i = i + 1;
    }
    proof {
        assert(rows@.take(i as int) =~= rows@);
    }
    CrossStoreReport {
        compared: rows.len() as u64,
        missing_in_redis: missing,
        mismatched_total: total,
        mismatched: listed,
    }
}

/// A clean comparison means that every account that holds funds is in the cache
/// with the same amounts.
pub proof fn law_clean_comparison_means_agreement(
    rows: Seq<AccountTuple>,
    cached: Seq<CachedAccount>,
    i: int,
)
    requires
        0 <= i < rows.len(),
        cached.len() == rows.len(),
        missing_count(rows, cached) == 0,
        mismatches(rows, cached).len() == 0,
    ensures
        crate::pg_store::or_zero(cached[i].0) == rows[i].2,
        crate::pg_store::or_zero(cached[i].1) == rows[i].3,
    decreases rows.len(),
{
    let d = rows.drop_last();
    if i < d.len() {
        lemma_prefix(d, cached, cached.drop_last());
        law_clean_comparison_means_agreement(d, cached.drop_last(), i);
    }
}

proof fn lemma_prefix(rows: Seq<AccountTuple>, a: Seq<CachedAccount>, b: Seq<CachedAccount>)
    requires
        rows.len() <= a.len(),
        rows.len() <= b.len(),
        forall|k: int| 0 <= k < rows.len() ==> a[k] == b[k],
    ensures
        missing_count(rows, a) == missing_count(rows, b),
        mismatches(rows, a) == mismatches(rows, b),
    decreases rows.len(),
{
    if rows.len() > 0 {
        lemma_prefix(rows.drop_last(), a, b);
    }
}

/// Long and short positions of a symbol that do not cancel out.
#[derive(Debug)]
pub struct PositionNetRow {
    pub symbol: String,
    pub net_lots: i64,
}

/// A margin account that does not hold the sum of its positions' margins.
#[derive(Debug, Clone, Copy, PartialEq, Eq, Structural)]
pub struct MarginMismatchRow {
    pub user_id: i64,
    pub account_used_margin_atoms: i64,
    pub positions_margin_sum_atoms: i64,
}

/// What the position checks found.
#[derive(Debug)]
pub struct PositionReport {
    pub net_violations: Vec<PositionNetRow>,
    pub margin_mismatches: Vec<MarginMismatchRow>,
}

impl PositionReport {
    pub open spec fn clean(&self) -> bool {
        self.net_violations@.len() == 0 && self.margin_mismatches@.len() == 0
    }

    pub fn is_clean(&self) -> (r: bool)
        ensures
            r == self.clean(),
    {
        self.net_violations.len() == 0 && self.margin_mismatches.len() == 0
    }
}

impl Default for PositionReport {
    fn default() -> (r: PositionReport)
        ensures
            r.clean(),
    {
        PositionReport { net_violations: Vec::new(), margin_mismatches: Vec::new() }
    }
}

/// Whether the two stores disagree on a row: a cached figure counts as zero
/// where it is missing.
pub open spec fn disagree(row: AccountTuple, cached: CachedAccount) -> bool {
    let balance = match cached.0 {
        Some(v) => v,
        None => 0,
    };
    let frozen = match cached.1 {
        Some(v) => v,
        None => 0,
    };
    balance != row.2 || frozen != row.3
}

/// How many rows the stores disagree on.
pub open spec fn disagreements(rows: Seq<AccountTuple>, cached: Seq<CachedAccount>) -> nat
    decreases rows.len(),
{
    if rows.len() == 0 {
        0
    } else {
        let k = rows.len() - 1;
        disagreements(rows.drop_last(), cached) + (if disagree(rows[k], cached[k]) {
            1nat
        } else {
            0nat
        })
    }
}

/// Every disagreement is reported once, as missing where nothing is cached and
/// as a mismatch otherwise, and no agreement is. A mismatch shows the figures of
/// both stores.
pub proof fn law_every_disagreement_is_reported(
    rows: Seq<AccountTuple>,
    cached: Seq<CachedAccount>,
    i: int,
)
    requires
        cached.len() >= rows.len(),
    ensures
        missing_count(rows, cached) + mismatches(rows, cached).len() == disagreements(rows, cached),
        0 <= i < rows.len() && disagree(rows[i], cached[i]) && (cached[i].0 is Some || cached[i].1
            is Some) ==> exists|k: int|
            0 <= k < mismatches(rows, cached).len() && {
                let m = #[trigger] mismatches(rows, cached)[k];
                &&& m.user_id == rows[i].0 && m.asset == rows[i].1@
                &&& m.pg_balance_atoms == rows[i].2 && m.pg_frozen_atoms == rows[i].3
                &&& m.redis_balance_atoms == cached[i].0 && m.redis_frozen_atoms == cached[i].1
            },
        0 <= i < rows.len() && disagree(rows[i], cached[i]) && cached[i].0 is None && cached[i].1
            is None ==> missing_count(rows, cached) > 0,
    decreases rows.len(),
{
    if rows.len() > 0 {
        let d = rows.drop_last();
        law_every_disagreement_is_reported(d, cached, i);
        let all = mismatches(rows, cached);
        let rest = mismatches(d, cached);
        if 0 <= i < rows.len() && disagree(rows[i], cached[i]) && (cached[i].0 is Some
            || cached[i].1 is Some) {
            if i < d.len() {
                assert(d[i] == rows[i]);
                let k = choose|k: int|
                    0 <= k < rest.len() && {
                        let m = #[trigger] rest[k];
                        &&& m.user_id == d[i].0 && m.asset == d[i].1@
                        &&& m.pg_balance_atoms == d[i].2 && m.pg_frozen_atoms == d[i].3
                        &&& m.redis_balance_atoms == cached[i].0 && m.redis_frozen_atoms
                            == cached[i].1
                    };
                assert(all[k] == rest[k]);
            } else {
                assert(all[all.len() - 1] == mismatch_of(rows[i], cached[i]));
            }
        }
        if 0 <= i < d.len() {
            assert(d[i] == rows[i]);
        }
    }
}

} // verus!
