//! Runtime controls per symbol: trading halts and fee overrides.
use crate::maps::{controls_get, controls_insert, controls_list, controls_new};
use dashmap::DashMap;
use crate::text;
use vstd::prelude::*;

verus! {

/// The controls of one symbol; a fee that is not set falls back to the default.
#[derive(Clone, Copy, Debug, PartialEq, Eq, Structural)]
pub struct SymbolControl {
    pub trading_halted: bool,
    pub maker_fee_bps: Option<i64>,
    pub taker_fee_bps: Option<i64>,
}

impl SymbolControl {
    /// Nothing halted, nothing overridden.
    pub open spec fn open_market() -> SymbolControl {
        SymbolControl { trading_halted: false, maker_fee_bps: None, taker_fee_bps: None }
    }
}

impl Default for SymbolControl {
    fn default() -> (r: SymbolControl)
        ensures
            r == SymbolControl::open_market(),
    {
        SymbolControl { trading_halted: false, maker_fee_bps: None, taker_fee_bps: None }
    }
}

/// A change to the controls of a symbol; what is not given stays as it is.
#[derive(Clone, Copy, Debug, PartialEq, Eq, Structural)]
pub struct ControlChange {
    pub trading_halted: Option<bool>,
    pub maker_fee_bps: Option<i64>,
    pub taker_fee_bps: Option<i64>,
    pub clear_maker_fee: bool,
    pub clear_taker_fee: bool,
}

/// A fee override after a change: cleared, replaced, or kept.
pub open spec fn fee_after(clear: bool, change: Option<i64>, current: Option<i64>) -> Option<i64> {
    if clear {
        None
    } else if change is Some {
        change
    } else {
        current
    }
}

impl ControlChange {
    pub open spec fn applied_to(self, current: SymbolControl) -> SymbolControl {
        SymbolControl {
            trading_halted: match self.trading_halted {
                Some(halted) => halted,
                None => current.trading_halted,
            },
            maker_fee_bps: fee_after(
                self.clear_maker_fee,
                self.maker_fee_bps,
                current.maker_fee_bps,
            ),
            taker_fee_bps: fee_after(
                self.clear_taker_fee,
                self.taker_fee_bps,
                current.taker_fee_bps,
            ),
        }
    }

    /// The controls that the change leads to.
    pub fn apply(&self, current: SymbolControl) -> (r: SymbolControl)
        ensures
            r == self.applied_to(current),
    {
        SymbolControl {
            trading_halted: match self.trading_halted {
                Some(halted) => halted,
                None => current.trading_halted,
            },
            maker_fee_bps: merge_fee(
                self.clear_maker_fee,
                self.maker_fee_bps,
                current.maker_fee_bps,
            ),
            taker_fee_bps: merge_fee(
                self.clear_taker_fee,
                self.taker_fee_bps,
                current.taker_fee_bps,
            ),
        }
    }
}

fn merge_fee(clear: bool, change: Option<i64>, current: Option<i64>) -> (r: Option<i64>)
    ensures
        r == fee_after(clear, change, current),
{
    if clear {
        None
    } else {
        match change {
            Some(v) => Some(v),
            None => current,
        }
    }
}

/// The controls of all symbols.
pub struct ExchangeConfig {
    by_symbol: DashMap<String, SymbolControl>,
}

impl ExchangeConfig {
    pub closed spec fn view(&self) -> Map<Seq<char>, SymbolControl> {
        crate::maps::control_entries(self.by_symbol)
    }

    /// The controls in force for a symbol.
    pub open spec fn control(&self, symbol: Seq<char>) -> SymbolControl {
        if self.view().contains_key(symbol) {
            self.view()[symbol]
        } else {
            SymbolControl::open_market()
        }
    }

    pub fn new() -> (r: ExchangeConfig)
        ensures
            (r.view() == Map::<Seq<char>, SymbolControl>::empty()),
    {
        ExchangeConfig { by_symbol: controls_new() }
    }

    /// Whether order entry is halted for a symbol; cancels and forced closes
    /// are never gated by this.
    pub fn is_halted(&self, symbol: &str) -> (r: bool)
        ensures
            r == self.control(symbol@).trading_halted,
    {
        self.get(symbol).trading_halted
    }

    /// The maker and taker fee in force: the override where one is set, else
    /// the symbol's default, which the caller hands in.
    pub fn fee_bps(&self, symbol: &str, defaults: (i64, i64)) -> (r: (i64, i64))
        ensures
            r.0 == (match self.control(symbol@).maker_fee_bps {
                Some(v) => v,
                None => defaults.0,
            }),
            r.1 == (match self.control(symbol@).taker_fee_bps {
                Some(v) => v,
                None => defaults.1,
            }),
    {
        let (maker, taker) = defaults;
        let control = self.get(symbol);
        (
            match control.maker_fee_bps {
                Some(v) => v,
                None => maker,
            },
            match control.taker_fee_bps {
                Some(v) => v,
                None => taker,
            },
        )
    }

    /// Puts controls in force for a symbol.
    pub fn set(&mut self, symbol: &str, control: SymbolControl)
        ensures
            final(self).view() == old(self).view().insert(symbol@, control),
    {
        controls_insert(&mut self.by_symbol, text::owned(symbol), control);
    }

    pub fn get(&self, symbol: &str) -> (r: SymbolControl)
        ensures
            r == self.control(symbol@),
    {
        match controls_get(&self.by_symbol, symbol) {
            Some(control) => control,
            None => SymbolControl::default(),
        }
    }

    /// Every symbol with controls, each once, in no particular order.
    pub fn all(&self) -> (r: Vec<(String, SymbolControl)>)
        ensures
            forall|i: int|
                0 <= i < r@.len() ==> self.view().contains_key((#[trigger] r@[i]).0@)
                    && self.view()[r@[i].0@] == r@[i].1,
            forall|k: Seq<char>| #[trigger]
                self.view().contains_key(k) ==> exists|i: int|
                    0 <= i < r@.len() && (#[trigger] r@[i]).0@ == k,
            forall|i: int, j: int| 0 <= i < j < r@.len() ==> r@[i].0@ != r@[j].0@,
    {
        controls_list(&self.by_symbol)
    }

    /// Takes over stored rows; a later row of the same symbol wins.
    pub fn hydrate(&mut self, rows: &Vec<(String, SymbolControl)>) -> (r: usize)
        ensures
            r == rows@.len(),
            final(self).view() == rows_loaded(old(self).view(), rows@),
    {
        let ghost before = self.view();
        let mut i: usize = 0;
        while i < rows.len()
            invariant
                0 <= i <= rows@.len(),
                self.view() == rows_loaded(before, rows@.take(i as int)),
            decreases rows@.len() - i,
        {
            proof {
                assert(rows@.take(i + 1).drop_last() =~= rows@.take(i as int));
            }
            self.set(rows[i].0.as_str(), rows[i].1);
            i = i + 1;
        }
        proof {
            assert(rows@.take(i as int) =~= rows@);
        }
        rows.len()
    }
}

/// A set of controls after rows were stored one after the other.
pub open spec fn rows_loaded(
    m: Map<Seq<char>, SymbolControl>,
    rows: Seq<(String, SymbolControl)>,
) -> Map<Seq<char>, SymbolControl>
    decreases rows.len(),
{
    if rows.len() == 0 {
        m
    } else {
        rows_loaded(m, rows.drop_last()).insert(rows.last().0@, rows.last().1)
    }
}

/// A change that names nothing changes nothing, and a change is in force once
/// it has been made twice just as when it was made once.
pub proof fn law_control_change_is_idempotent(change: ControlChange, current: SymbolControl)
    ensures
        change.applied_to(change.applied_to(current)) == change.applied_to(current),
        (ControlChange {
            trading_halted: None,
            maker_fee_bps: None,
            taker_fee_bps: None,
            clear_maker_fee: false,
            clear_taker_fee: false,
        }).applied_to(current) == current,
{
}

/// A change sets what it names, clears what it clears and leaves the rest.
pub proof fn law_change_sets_what_it_names(change: ControlChange, current: SymbolControl)
    ensures
        ({
            let next = change.applied_to(current);
            &&& change.trading_halted matches Some(halted) ==> next.trading_halted == halted
            &&& change.trading_halted is None ==> next.trading_halted == current.trading_halted
            &&& change.clear_maker_fee ==> next.maker_fee_bps is None
            &&& change.clear_taker_fee ==> next.taker_fee_bps is None
            &&& !change.clear_maker_fee && change.maker_fee_bps is Some ==> next.maker_fee_bps
                == change.maker_fee_bps
            &&& !change.clear_taker_fee && change.taker_fee_bps is Some ==> next.taker_fee_bps
                == change.taker_fee_bps
            &&& !change.clear_maker_fee && change.maker_fee_bps is None ==> next.maker_fee_bps
                == current.maker_fee_bps
            &&& !change.clear_taker_fee && change.taker_fee_bps is None ==> next.taker_fee_bps
                == current.taker_fee_bps
        }),
        !SymbolControl::open_market().trading_halted,
{
}

/// Of rows that are loaded for a symbol the last one counts; symbols that no
/// row names stay.
pub proof fn law_last_row_counts(
    m: Map<Seq<char>, SymbolControl>,
    rows: Seq<(String, SymbolControl)>,
    symbol: Seq<char>,
    k: int,
)
    requires
        k < rows.len(),
        forall|i: int| k < i < rows.len() ==> (#[trigger] rows[i]).0@ != symbol,
        k >= 0 ==> rows[k].0@ == symbol,
        k >= -1,
    ensures
        k >= 0 ==> rows_loaded(m, rows).contains_key(symbol) && rows_loaded(m, rows)[symbol]
            == rows[k].1,
        k < 0 ==> rows_loaded(m, rows).contains_key(symbol) == m.contains_key(symbol)
            && rows_loaded(m, rows)[symbol] == m[symbol],
    decreases rows.len(),
{
    if rows.len() > 0 && k < rows.len() - 1 {
        let d = rows.drop_last();
        assert forall|i: int| k < i < d.len() implies (#[trigger] d[i]).0@ != symbol by {
            assert(d[i] == rows[i]);
        }
        assert(rows[rows.len() - 1].0@ != symbol);
        law_last_row_counts(m, d, symbol, k);
    }
}

/// A market that nothing was set for trades, at the fees that hold for all.
pub proof fn law_untouched_market_trades()
    ensures
        !SymbolControl::open_market().trading_halted,
        SymbolControl::open_market().maker_fee_bps is None,
        SymbolControl::open_market().taker_fee_bps is None,
{
}

/// A symbol is under the controls that were set for it, and an untouched one
/// trades freely.
pub proof fn law_set_controls_are_in_force(config: ExchangeConfig, symbol: Seq<char>)
    ensures
        config.view().contains_key(symbol) ==> config.control(symbol) == config.view()[symbol],
        !config.view().contains_key(symbol) ==> !config.control(symbol).trading_halted
            && config.control(symbol).maker_fee_bps is None
            && config.control(symbol).taker_fee_bps is None,
{
}

} // verus!
