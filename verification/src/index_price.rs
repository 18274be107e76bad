//! Index price: the median of independent sources after one round of outlier
//! rejection, and the mark clamped around it.
use crate::funding::read_setting;
use crate::maps::{quotes_get, quotes_insert, quotes_new, Symbol};
use crate::money;
use crate::money::divide;
use crate::text;
use dashmap::DashMap;
use vstd::prelude::*;

verus! {

/// One external price source.
pub struct SharedSource {
    pub name: String,
    /// Price in ticks and the time it was stored.
    prices: DashMap<Symbol, (i64, i64)>,
}

/// The price of a symbol where it is not older than `staleness_ms`.
pub open spec fn fresh_price(
    quotes: Map<Symbol, (i64, i64)>,
    symbol: Symbol,
    now_ms: int,
    staleness_ms: int,
) -> Option<i64> {
    if quotes.contains_key(symbol) && now_ms - quotes[symbol].1 <= staleness_ms {
        Some(quotes[symbol].0)
    } else {
        None
    }
}

impl SharedSource {
    pub closed spec fn view(&self) -> Map<Symbol, (i64, i64)> {
        crate::maps::quote_entries(self.prices)
    }

    pub closed spec fn label(&self) -> Seq<char> {
        self.name@
    }

    /// Only positive prices are ever stored.
    pub open spec fn wf(&self) -> bool {
        forall|s: Symbol| #[trigger] self.view().contains_key(s) ==> self.view()[s].0 > 0
    }

    pub fn new(name: String) -> (r: SharedSource)
        ensures
            r.wf(),
            r.label() == name@,
            (r.view() == Map::<Symbol, (i64, i64)>::empty()),
    {
        SharedSource { name, prices: quotes_new() }
    }

    /// Stores a price; one that is not positive is ignored.
    pub fn store(&mut self, symbol: Symbol, price_ticks: i64, now_ms: i64)
        requires
            old(self).wf(),
        ensures
            final(self).wf(),
            final(self).label() == old(self).label(),
            final(self).view() == (if price_ticks > 0 {
                old(self).view().insert(symbol, (price_ticks, now_ms))
            } else {
                old(self).view()
            }),
    {
        if price_ticks > 0 {
            quotes_insert(&mut self.prices, symbol, (price_ticks, now_ms));
            proof {
                assert forall|s: Symbol| #[trigger] self.view().contains_key(s) implies self.view()[s].0
                    > 0 by {
                    if s != symbol {
                        assert(old(self).view().contains_key(s));
                    }
                }
            }
        }
    }

    /// The price where it is fresh enough.
    pub fn fresh(&self, symbol: &Symbol, now_ms: i64, staleness_ms: i64) -> (r: Option<i64>)
        ensures
            r == fresh_price(self.view(), *symbol, now_ms as int, staleness_ms as int),
    {
        match quotes_get(&self.prices, symbol) {
            Some((price, at)) => if now_ms as i128 - at as i128 <= staleness_ms as i128 {
                Some(price)
            } else {
                None
            },
            None => None,
        }
    }
}

/// How often the index could be given, had to be withheld, and dropped a price.
#[derive(Debug, Clone, Copy, PartialEq, Eq, Structural)]
pub struct IndexHealth {
    pub ok: u64,
    pub frozen: u64,
    pub outliers_dropped: u64,
}

impl Default for IndexHealth {
    fn default() -> (r: IndexHealth)
        ensures
            r.ok == 0,
            r.frozen == 0,
            r.outliers_dropped == 0,
    {
        IndexHealth { ok: 0, frozen: 0, outliers_dropped: 0 }
    }
}

pub open spec fn is_ascending(s: Seq<i64>) -> bool {
    forall|i: int, j: int| 0 <= i <= j < s.len() ==> #[trigger] s[i] <= #[trigger] s[j]
}

/// `s` with `x` put behind the last element that is not above it.
pub open spec fn placed(s: Seq<i64>, x: i64) -> Seq<i64>
    decreases s.len(),
{
    if s.len() == 0 || s.last() <= x {
        s.push(x)
    } else {
        placed(s.drop_last(), x).push(s.last())
    }
}

/// The elements of `s` in ascending order.
pub open spec fn ascending(s: Seq<i64>) -> Seq<i64>
    decreases s.len(),
{
    if s.len() == 0 {
        seq![]
    } else {
        placed(ascending(s.drop_last()), s.last())
    }
}

/// How far a price is from the median, in basis points of the median.
pub open spec fn deviation_bps(price: int, median: int) -> int {
    let gap = if price >= median {
        price - median
    } else {
        median - price
    };
    (gap * 10_000) / (if median > 1 {
        median
    } else {
        1
    })
}

/// The prices that are not too far from the median, in order.
pub open spec fn survivors(s: Seq<i64>, median: int, outlier_bps: int) -> Seq<i64>
    decreases s.len(),
{
    if s.len() == 0 {
        seq![]
    } else {
        let rest = survivors(s.drop_last(), median, outlier_bps);
        if deviation_bps(s.last() as int, median) <= outlier_bps {
            rest.push(s.last())
        } else {
            rest
        }
    }
}

/// The index from the fresh prices: the median of those left after the ones
/// too far from the first median are dropped; none where too few are left.
pub open spec fn index_of(
    prices: Seq<i64>,
    outlier_bps: int,
    min_sources: int,
) -> Option<i64> {
    let p = ascending(prices);
    let left = survivors(p, p[p.len() as int / 2] as int, outlier_bps);
    if p.len() < min_sources || left.len() < min_sources {
        None
    } else {
        Some(left[left.len() as int / 2])
    }
}

/// The prices that outlier rejection drops.
pub open spec fn dropped_of(prices: Seq<i64>, outlier_bps: int, min_sources: int) -> int {
    let p = ascending(prices);
    if p.len() < min_sources {
        0
    } else {
        p.len() - survivors(p, p[p.len() as int / 2] as int, outlier_bps).len()
    }
}

/// The fresh prices among sources, in order.
pub open spec fn fresh_prices(
    sources: Seq<SharedSource>,
    symbol: Symbol,
    now_ms: int,
    staleness_ms: int,
) -> Seq<i64>
    decreases sources.len(),
{
    if sources.len() == 0 {
        seq![]
    } else {
        let rest = fresh_prices(sources.drop_last(), symbol, now_ms, staleness_ms);
        match fresh_price(sources.last().view(), symbol, now_ms, staleness_ms) {
            Some(p) => rest.push(p),
            None => rest,
        }
    }
}

proof fn lemma_placed_is_insert(s: Seq<i64>, x: i64, k: int)
    requires
        0 <= k <= s.len(),
        k > 0 ==> s[k - 1] <= x,
        forall|i: int| k <= i < s.len() ==> #[trigger] s[i] > x,
    ensures
        placed(s, x) == s.insert(k, x),
    decreases s.len(),
{
    if k == s.len() {
        assert(s.insert(k, x) =~= s.push(x));
    } else {
        let d = s.drop_last();
        assert(s[s.len() - 1] > x);
        assert forall|i: int| k <= i < d.len() implies #[trigger] d[i] > x by {
            assert(d[i] == s[i]);
        }
        lemma_placed_is_insert(d, x, k);
        assert(s.insert(k, x) =~= d.insert(k, x).push(s.last()));
    }
}

proof fn lemma_placed_ascending(s: Seq<i64>, x: i64)
    requires
        is_ascending(s),
    ensures
        is_ascending(placed(s, x)),
        placed(s, x).len() == s.len() + 1,
        forall|y: i64| #[trigger] placed(s, x).contains(y) <==> s.contains(y) || y == x,
    decreases s.len(),
{
    if s.len() == 0 || s.last() <= x {
        let t = s.push(x);
        assert forall|i: int, j: int| 0 <= i <= j < t.len() implies #[trigger] t[i]
            <= #[trigger] t[j] by {
            if i < s.len() {
                assert(s[i] <= s[s.len() - 1]);
            }
        }
        assert forall|y: i64| #[trigger] t.contains(y) <==> s.contains(y) || y == x by {
            if s.contains(y) {
                let i = choose|i: int| 0 <= i < s.len() && s[i] == y;
                assert(t[i] == y);
            }
            assert(t[s.len() as int] == x);
            if t.contains(y) {
                let i = choose|i: int| 0 <= i < t.len() && t[i] == y;
                if i < s.len() {
                    assert(s[i] == y);
                }
            }
        }
    } else {
        let d = s.drop_last();
        assert(is_ascending(d));
        lemma_placed_ascending(d, x);
        let q = placed(d, x);
        let t = q.push(s.last());
        assert forall|i: int, j: int| 0 <= i <= j < t.len() implies #[trigger] t[i]
            <= #[trigger] t[j] by {
            if j == q.len() && i < q.len() {
                assert(q.contains(q[i]));
                if d.contains(q[i]) {
                    let k = choose|k: int| 0 <= k < d.len() && d[k] == q[i];
                    assert(s[k] <= s[s.len() - 1]);
                }
            }
        }
        assert forall|y: i64| #[trigger] t.contains(y) <==> s.contains(y) || y == x by {
            assert(q.contains(y) <==> d.contains(y) || y == x);
            if s.contains(y) {
                let i = choose|i: int| 0 <= i < s.len() && s[i] == y;
                if i < d.len() {
                    assert(d[i] == y);
                } else {
                    assert(t[q.len() as int] == y);
                }
            }
            if q.contains(y) {
                let i = choose|i: int| 0 <= i < q.len() && q[i] == y;
                assert(t[i] == y);
            }
            if d.contains(y) {
                let i = choose|i: int| 0 <= i < d.len() && d[i] == y;
                assert(s[i] == y);
            }
            if t.contains(y) {
                let i = choose|i: int| 0 <= i < t.len() && t[i] == y;
                if i < q.len() {
                    assert(q[i] == y);
                } else {
                    assert(s[s.len() - 1] == y);
                }
            }
        }
    }
}

/// Sorting keeps the elements and their number and puts them in order.
pub proof fn lemma_ascending(s: Seq<i64>)
    ensures
        is_ascending(ascending(s)),
        ascending(s).len() == s.len(),
        forall|y: i64| #[trigger] ascending(s).contains(y) <==> s.contains(y),
    decreases s.len(),
{
    if s.len() > 0 {
        let d = s.drop_last();
        lemma_ascending(d);
        lemma_placed_ascending(ascending(d), s.last());
        assert forall|y: i64| #[trigger] ascending(s).contains(y) <==> s.contains(y) by {
            assert(ascending(d).contains(y) <==> d.contains(y));
            if s.contains(y) {
                let i = choose|i: int| 0 <= i < s.len() && s[i] == y;
                if i < d.len() {
                    assert(d[i] == y);
                }
            }
            if d.contains(y) {
                let i = choose|i: int| 0 <= i < d.len() && d[i] == y;
                assert(s[i] == y);
            }
            assert(s[s.len() - 1] == s.last());
        }
    }
}

fn sort(prices: &Vec<i64>) -> (r: Vec<i64>)
    ensures
        r@ == ascending(prices@),
{
    let mut out: Vec<i64> = Vec::new();
    let mut i: usize = 0;
    while i < prices.len()
        invariant
            0 <= i <= prices@.len(),
            out@ == ascending(prices@.take(i as int)),
        decreases prices@.len() - i,
    {
        let x = prices[i];
        proof {
            lemma_ascending(prices@.take(i as int));
            assert(prices@.take(i + 1).drop_last() =~= prices@.take(i as int));
        }
        let mut k: usize = out.len();
        while k > 0 && out[k - 1] > x
            invariant
                k <= out@.len(),
                is_ascending(out@),
                forall|j: int| k <= j < out@.len() ==> #[trigger] out@[j] > x,
            decreases k,
        {
            k = k - 1;
        }
        proof {
            lemma_placed_is_insert(out@, x, k as int);
        }
        out.insert(k, x);
        i = i + 1;
    }
    proof {
        assert(prices@.take(i as int) =~= prices@);
    }
    out
}

/// The index of one symbol from several sources.
pub struct IndexAggregator {
    pub sources: Vec<SharedSource>,
    /// A price older than this is ignored.
    pub staleness_ms: i64,
    /// A price further than this from the median is dropped.
    pub outlier_bps: i64,
    /// With fewer prices than this there is no index.
    pub min_sources: usize,
    pub health: IndexHealth,
}

impl IndexAggregator {
    pub open spec fn wf(&self) -> bool {
        forall|i: int| 0 <= i < self.sources@.len() ==> (#[trigger] self.sources@[i]).wf()
    }

    /// An aggregator with the given settings; what is missing or no number
    /// takes its default of thirty seconds, two per cent and two sources.
    pub fn new(
        sources: Vec<SharedSource>,
        staleness_ms: Option<&str>,
        outlier_bps: Option<&str>,
        min_sources: Option<&str>,
    ) -> (r: IndexAggregator)
        ensures
            r.sources == sources,
            r.staleness_ms == crate::funding::setting_or(
                text::opt_str(staleness_ms),
                30_000,
            ),
            r.outlier_bps == crate::funding::setting_or(
                text::opt_str(outlier_bps),
                200,
            ),
            r.min_sources == crate::funding::setting_or(
                text::opt_str(min_sources),
                2,
            ) as usize,
            r.health == (IndexHealth { ok: 0, frozen: 0, outliers_dropped: 0 }),
    {
        IndexAggregator {
            sources,
            staleness_ms: read_setting(staleness_ms, 30_000),
            outlier_bps: read_setting(outlier_bps, 200),
            min_sources: read_setting(min_sources, 2) as usize,
            health: IndexHealth::default(),
        }
    }

    /// The fresh prices of a symbol, by source.
    pub open spec fn prices(&self, symbol: Symbol, now_ms: i64) -> Seq<i64> {
        fresh_prices(self.sources@, symbol, now_ms as int, self.staleness_ms as int)
    }

    fn collect(&self, symbol: &Symbol, now_ms: i64) -> (r: Vec<i64>)
        requires
            self.wf(),
        ensures
            r@ == self.prices(*symbol, now_ms),
            forall|i: int| 0 <= i < r@.len() ==> #[trigger] r@[i] > 0,
    {
        let mut out: Vec<i64> = Vec::new();
        let mut i: usize = 0;
        while i < self.sources.len()
            invariant
                0 <= i <= self.sources@.len(),
                self.wf(),
                out@ == fresh_prices(
                    self.sources@.take(i as int),
                    *symbol,
                    now_ms as int,
                    self.staleness_ms as int,
                ),
                forall|j: int| 0 <= j < out@.len() ==> #[trigger] out@[j] > 0,
            decreases self.sources@.len() - i,
        {
            proof {
                assert(self.sources@.take(i + 1).drop_last() =~= self.sources@.take(i as int));
                assert(self.sources@[i as int].wf());
            }
            if let Some(price) = self.sources[i].fresh(symbol, now_ms, self.staleness_ms) {
                out.push(price);
            }
            i = i + 1;
        }
        proof {
            assert(self.sources@.take(i as int) =~= self.sources@);
        }
        out
    }

    /// The index at a time, and the health counters moved on. Without enough
    /// prices there is none, so that no one acts on a made-up price.
    pub fn index_at(&mut self, symbol: &Symbol, now_ms: i64) -> (r: Option<i64>)
        requires
            old(self).wf(),
            old(self).min_sources > 0 || (old(self).prices(*symbol, now_ms).len() > 0 && old(
                self,
            ).outlier_bps >= 0),
        ensures
            final(self).wf(),
            final(self).sources == old(self).sources,
            final(self).staleness_ms == old(self).staleness_ms,
            final(self).outlier_bps == old(self).outlier_bps,
            final(self).min_sources == old(self).min_sources,
            r == index_of(
                old(self).prices(*symbol, now_ms),
                old(self).outlier_bps as int,
                old(self).min_sources as int,
            ),
            final(self).health == (IndexHealth {
                ok: if r is Some {
                    counted(old(self).health.ok, 1)
                } else {
                    old(self).health.ok
                },
                frozen: if r is None {
                    counted(old(self).health.frozen, 1)
                } else {
                    old(self).health.frozen
                },
                outliers_dropped: counted(
                    old(self).health.outliers_dropped,
                    dropped_of(
                        old(self).prices(*symbol, now_ms),
                        old(self).outlier_bps as int,
                        old(self).min_sources as int,
                    ),
                ),
            }),
    {
        let found = self.collect(symbol, now_ms);
        let ghost raw = found@;
        let prices = sort(&found);
        proof {
            lemma_ascending(raw);
            assert forall|i: int| 0 <= i < prices@.len() implies #[trigger] prices@[i] > 0 by {
                assert(prices@.contains(prices@[i]));
                assert(raw.contains(prices@[i]));
                let j = choose|j: int| 0 <= j < raw.len() && raw[j] == prices@[i];
                assert(raw[j] > 0);
            }
        }
        if prices.len() < self.min_sources {
            self.health.frozen = self.health.frozen.wrapping_add(1);
            return None;
        }
        let median = prices[prices.len() / 2];
        let mut left: Vec<i64> = Vec::new();
        let mut i: usize = 0;
        while i < prices.len()
            invariant
                0 <= i <= prices@.len(),
                median > 0,
                forall|j: int| 0 <= j < prices@.len() ==> #[trigger] prices@[j] > 0,
                left@ == survivors(
                    prices@.take(i as int),
                    median as int,
                    self.outlier_bps as int,
                ),
                left@.len() <= i,
            decreases prices@.len() - i,
        {
            let p = prices[i];
            let gap: i128 = if p >= median {
                p as i128 - median as i128
            } else {
                median as i128 - p as i128
            };
            let deviation = (gap * 10_000) / (if median > 1 {
                median as i128
            } else {
                1
            });
            proof {
                assert(prices@.take(i + 1).drop_last() =~= prices@.take(i as int));
            }
            if deviation <= self.outlier_bps as i128 {
                left.push(p);
            }
            i = i + 1;
        }
        proof {
            assert(prices@.take(i as int) =~= prices@);
        }
        let dropped = prices.len() - left.len();
        self.health.outliers_dropped = self.health.outliers_dropped.wrapping_add(dropped as u64);
        if left.len() < self.min_sources {
            self.health.frozen = self.health.frozen.wrapping_add(1);
            return None;
        }
        self.health.ok = self.health.ok.wrapping_add(1);
        proof {
            if self.min_sources == 0 {
                let m = prices@[prices@.len() as int / 2];
                lemma_survivor(prices@, prices@.len() as int / 2, m as int, self.outlier_bps as int);
            }
        }
        Some(left[left.len() / 2])
    }
}

/// A counter after `n` more events; it wraps.
pub open spec fn counted(c: u64, n: int) -> u64 {
    if c + n > u64::MAX {
        (c + n - 0x1_0000_0000_0000_0000) as u64
    } else {
        (c + n) as u64
    }
}

/// A price that is close enough survives.
proof fn lemma_survivor(s: Seq<i64>, i: int, median: int, bps: int)
    requires
        0 <= i < s.len(),
        deviation_bps(s[i] as int, median) <= bps,
    ensures
        survivors(s, median, bps).contains(s[i]),
    decreases s.len(),
{
    let d = s.drop_last();
    let rest = survivors(d, median, bps);
    if i == s.len() - 1 {
        let t = survivors(s, median, bps);
        assert(t[rest.len() as int] == s[i]);
    } else {
        lemma_survivor(d, i, median, bps);
        assert(d[i] == s[i]);
        let k = choose|k: int| 0 <= k < rest.len() && rest[k] == s[i];
        let t = survivors(s, median, bps);
        assert(t[k] == s[i]);
    }
}

/// How many elements lie outside a range.
pub open spec fn outside(s: Seq<i64>, lo: int, hi: int) -> int
    decreases s.len(),
{
    if s.len() == 0 {
        0
    } else {
        outside(s.drop_last(), lo, hi) + (if lo <= s.last() <= hi {
            0int
        } else {
            1int
        })
    }
}

proof fn lemma_outside_nonnegative(s: Seq<i64>, lo: int, hi: int)
    ensures
        outside(s, lo, hi) >= 0,
    decreases s.len(),
{
    if s.len() > 0 {
        lemma_outside_nonnegative(s.drop_last(), lo, hi);
    }
}

proof fn lemma_outside_placed(s: Seq<i64>, x: i64, lo: int, hi: int)
    ensures
        outside(placed(s, x), lo, hi) == outside(s, lo, hi) + (if lo <= x <= hi {
            0int
        } else {
            1int
        }),
    decreases s.len(),
{
    if s.len() == 0 || s.last() <= x {
        assert(s.push(x).drop_last() =~= s);
    } else {
        lemma_outside_placed(s.drop_last(), x, lo, hi);
        let q = placed(s.drop_last(), x);
        assert(q.push(s.last()).drop_last() =~= q);
    }
}

proof fn lemma_outside_ascending(s: Seq<i64>, lo: int, hi: int)
    ensures
        outside(ascending(s), lo, hi) == outside(s, lo, hi),
    decreases s.len(),
{
    if s.len() > 0 {
        lemma_outside_ascending(s.drop_last(), lo, hi);
        lemma_outside_placed(ascending(s.drop_last()), s.last(), lo, hi);
    }
}

proof fn lemma_one_outside(s: Seq<i64>, lo: int, hi: int, i: int)
    requires
        0 <= i < s.len(),
        !(lo <= s[i] <= hi),
    ensures
        outside(s, lo, hi) >= 1,
    decreases s.len(),
{
    if i == s.len() - 1 {
        lemma_outside_nonnegative(s.drop_last(), lo, hi);
    } else {
        assert(s.drop_last()[i] == s[i]);
        lemma_one_outside(s.drop_last(), lo, hi, i);
    }
}

proof fn lemma_two_outside(s: Seq<i64>, lo: int, hi: int, i: int, j: int)
    requires
        0 <= i < j < s.len(),
        !(lo <= s[i] <= hi),
        !(lo <= s[j] <= hi),
    ensures
        outside(s, lo, hi) >= 2,
    decreases s.len(),
{
    let d = s.drop_last();
    assert(d[i] == s[i]);
    if j == s.len() - 1 {
        lemma_one_outside(d, lo, hi, i);
    } else {
        assert(d[j] == s[j]);
        lemma_two_outside(d, lo, hi, i, j);
    }
}

proof fn lemma_outside_all_but_one(s: Seq<i64>, bad: int, lo: int, hi: int)
    requires
        forall|i: int| 0 <= i < s.len() && i != bad ==> lo <= #[trigger] s[i] <= hi,
    ensures
        outside(s, lo, hi) <= (if 0 <= bad < s.len() {
            1int
        } else {
            0int
        }),
    decreases s.len(),
{
    if s.len() > 0 {
        let d = s.drop_last();
        assert forall|i: int| 0 <= i < d.len() && i != bad implies lo <= #[trigger] d[i] <= hi by {
            assert(d[i] == s[i]);
        }
        lemma_outside_all_but_one(d, bad, lo, hi);
        if s.len() - 1 != bad {
            assert(lo <= s[s.len() - 1] <= hi);
        }
    }
}

/// What survives is in order, close enough, came from the prices, and holds no
/// more strays than they did; where one is missing, one was too far.
proof fn lemma_survivors(s: Seq<i64>, median: int, bps: int, lo: int, hi: int)
    requires
        is_ascending(s),
    ensures
        ({
            let t = survivors(s, median, bps);
            &&& is_ascending(t)
            &&& t.len() <= s.len()
            &&& outside(t, lo, hi) <= outside(s, lo, hi)
            &&& forall|k: int| 0 <= k < t.len() ==> deviation_bps(#[trigger] t[k] as int, median) <= bps
            &&& forall|k: int| 0 <= k < t.len() ==> s.contains(#[trigger] t[k])
            &&& t.len() < s.len() ==> exists|k: int|
                0 <= k < s.len() && deviation_bps(#[trigger] s[k] as int, median) > bps
        }),
    decreases s.len(),
{
    if s.len() > 0 {
        let d = s.drop_last();
        assert(is_ascending(d));
        lemma_survivors(d, median, bps, lo, hi);
        let rest = survivors(d, median, bps);
        let t = survivors(s, median, bps);
        let last = s.len() - 1;
        if deviation_bps(s.last() as int, median) <= bps {
            assert(t.drop_last() =~= rest);
            assert forall|k: int| 0 <= k < t.len() implies s.contains(#[trigger] t[k]) by {
                if k < rest.len() {
                    assert(t[k] == rest[k]);
                    assert(d.contains(rest[k]));
                    let m = choose|m: int| 0 <= m < d.len() && d[m] == rest[k];
                    assert(s[m] == t[k]);
                } else {
                    assert(s[last] == t[k]);
                }
            }
            assert forall|i: int, j: int| 0 <= i <= j < t.len() implies #[trigger] t[i]
                <= #[trigger] t[j] by {
                if j < rest.len() {
                    assert(rest[i] <= rest[j]);
                } else if i < rest.len() {
                    assert(d.contains(rest[i]));
                    let m = choose|m: int| 0 <= m < d.len() && d[m] == rest[i];
                    assert(s[m] <= s[last]);
                }
            }
            assert forall|k: int| 0 <= k < t.len() implies deviation_bps(
                #[trigger] t[k] as int,
                median,
            ) <= bps by {
                if k < rest.len() {
                    assert(t[k] == rest[k]);
                }
            }
            if t.len() < s.len() {
                let k = choose|k: int|
                    0 <= k < d.len() && deviation_bps(#[trigger] d[k] as int, median) > bps;
                assert(deviation_bps(s[k] as int, median) > bps);
            }
        } else {
            assert(deviation_bps(s[last] as int, median) > bps);
            assert forall|k: int| 0 <= k < t.len() implies s.contains(#[trigger] t[k]) by {
                assert(d.contains(rest[k]));
                let m = choose|m: int| 0 <= m < d.len() && d[m] == rest[k];
                assert(s[m] == t[k]);
            }
        }
    }
}

proof fn lemma_farther(a: int, b: int, median: int)
    requires
        median >= 1,
        a >= 0,
        b >= 0,
        (a * 10_000) / median > (b * 10_000) / median,
    ensures
        a > b,
{
    if a <= b {
        vstd::arithmetic::div_mod::lemma_div_is_ordered(a * 10_000, b * 10_000, median);
    }
}

/// One compromised source among at least three cannot move the index away from
/// the honest prices by more than the gap between them: with all others in
/// `lo..=hi`, the index stays within one such gap of that range.
pub proof fn law_one_bad_source_is_contained(
    prices: Seq<i64>,
    bad: int,
    lo: int,
    hi: int,
    outlier_bps: int,
    min_sources: int,
)
    requires
        prices.len() >= 3,
        outlier_bps >= 0,
        lo <= hi,
        forall|i: int| 0 <= i < prices.len() ==> #[trigger] prices[i] > 0,
        forall|i: int| 0 <= i < prices.len() && i != bad ==> lo <= #[trigger] prices[i] <= hi,
    ensures
        index_of(prices, outlier_bps, min_sources) matches Some(r) ==> lo - (hi - lo) <= r <= hi + (
        hi - lo),
{
    let p = ascending(prices);
    let n = p.len() as int;
    lemma_ascending(prices);
    lemma_outside_ascending(prices, lo, hi);
    lemma_outside_all_but_one(prices, bad, lo, hi);
    let mid = n / 2;
    let m = p[mid] as int;
    if m < lo {
        assert(p[0] <= p[mid]);
        lemma_two_outside(p, lo, hi, 0, mid);
    }
    if m > hi {
        assert(p[mid] <= p[n - 1]);
        lemma_two_outside(p, lo, hi, mid, n - 1);
    }
    assert(lo <= m <= hi);
    assert(m > 0) by {
        assert(p.contains(p[mid]));
        let j = choose|j: int| 0 <= j < prices.len() && prices[j] == p[mid];
        assert(prices[j] > 0);
    }
    let q = survivors(p, m, outlier_bps);
    lemma_survivors(p, m, outlier_bps, lo, hi);
    assert(deviation_bps(m, m) == 0) by {
        assert(0int / m == 0) by (nonlinear_arith)
            requires
                m > 0,
        ;
    }
    lemma_survivor(p, mid, m, outlier_bps);
    let at = choose|k: int| 0 <= k < q.len() && q[k] == p[mid];
    let k = q.len() as int;
    let r = q[k / 2] as int;
    if r > hi {
        if k / 2 < k - 1 {
            assert(q[k / 2] <= q[k - 1]);
            lemma_two_outside(q, lo, hi, k / 2, k - 1);
        }
        assert(k / 2 == k - 1);
        assert(k == 2);
        let h = choose|h: int|
            0 <= h < p.len() && deviation_bps(#[trigger] p[h] as int, m) > outlier_bps;
        assert(deviation_bps(q[k / 2] as int, m) <= outlier_bps);
        assert(p.contains(q[k / 2]));
        let x = choose|x: int| 0 <= x < p.len() && p[x] == q[k / 2];
        if !(lo <= p[h] <= hi) {
            if h < x {
                lemma_two_outside(p, lo, hi, h, x);
            } else {
                lemma_two_outside(p, lo, hi, x, h);
            }
        }
        let a = if p[h] >= m {
            p[h] - m
        } else {
            m - p[h]
        };
        lemma_farther(a, r - m, m);
    }
    if r < lo {
        if k / 2 > 0 {
            assert(q[0] <= q[k / 2]);
            lemma_two_outside(q, lo, hi, 0, k / 2);
        }
        assert(k == 1);
    }
}

/// The band that the mark is kept in, as it is computed.
pub open spec fn band_edge(index_ticks: int, factor_bps: int) -> i64 {
    money::trunc_div(index_ticks * factor_bps, 10_000) as i64
}

/// The mid price of the book, kept within `clamp_bps` of the index.
pub fn clamped_mark(mid_ticks: i64, index_ticks: i64, clamp_bps: i64) -> (r: i64)
    requires
        money::fits_i64(10_000 - clamp_bps),
        money::fits_i64(10_000 + clamp_bps),
        band_edge(index_ticks as int, 10_000 - clamp_bps) <= band_edge(
            index_ticks as int,
            10_000 + clamp_bps,
        ),
    ensures
        ({
            let lo = band_edge(index_ticks as int, 10_000 - clamp_bps);
            let hi = band_edge(index_ticks as int, 10_000 + clamp_bps);
            &&& lo <= r <= hi
            &&& r == (if mid_ticks < lo {
                lo
            } else if mid_ticks > hi {
                hi
            } else {
                mid_ticks
            })
        }),
{
    let low_factor = 10_000 - clamp_bps;
    let high_factor = 10_000 + clamp_bps;
    proof {
        money::lemma_i64_product(index_ticks as int, low_factor as int);
        money::lemma_i64_product(index_ticks as int, high_factor as int);
        money::lemma_trunc_div_bounds(index_ticks * low_factor, 10_000);
        money::lemma_trunc_div_bounds(index_ticks * high_factor, 10_000);
    }
    let lo = divide(index_ticks as i128 * low_factor as i128, 10_000) as i64;
    let hi = divide(index_ticks as i128 * high_factor as i128, 10_000) as i64;
    if mid_ticks < lo {
        lo
    } else if mid_ticks > hi {
        hi
    } else {
        mid_ticks
    }
}

/// The trimmed pieces of a list that are not empty.
pub open spec fn named_pieces(pieces: Seq<Seq<char>>) -> Seq<Seq<char>>
    decreases pieces.len(),
{
    if pieces.len() == 0 {
        seq![]
    } else {
        let name = text::trimmed(pieces[0]);
        let rest = named_pieces(pieces.drop_first());
        if name.len() == 0 {
            rest
        } else {
            seq![name] + rest
        }
    }
}

/// The names of the configured sources, between commas.
pub fn source_names(setting: &str) -> (r: Vec<String>)
    ensures
        text::text_views(r@) == named_pieces(text::split_on(setting@, ',')),
{
    let chars = text::to_chars(setting);
    let n = chars.len();
    let mut out: Vec<String> = Vec::new();
    let mut start: usize = 0;
    let ghost all = named_pieces(text::split_on(setting@, ','));
    proof {
        assert(setting@.skip(0) =~= setting@);
        assert(text::text_views(out@) + all =~= all);
    }
    loop
        invariant_except_break
            start <= n,
            n == chars@.len(),
            chars@ == setting@,
            all == text::text_views(out@) + named_pieces(
                text::split_on(setting@.skip(start as int), ','),
            ),
        ensures
            text::text_views(out@) == all,
        decreases n - start,
    {
        let rest = vstd::slice::slice_subrange(chars.as_slice(), start, n);
        proof {
            assert(rest@ =~= setting@.skip(start as int));
        }
        let k = text::find_char(rest, ',');
        let piece = text::from_chars(vstd::slice::slice_subrange(rest, 0, k));
        let ghost pieces = text::split_on(rest@, ',');
        let ghost before = text::text_views(out@);
        let name = text::trim(piece.as_str());
        let last = k >= rest.len();
        proof {
            if last {
                assert(piece@ =~= rest@);
                assert(pieces.drop_first() =~= seq![]);
                assert(named_pieces(seq![]) =~= seq![]);
            } else {
                assert(piece@ =~= rest@.take(k as int));
                assert(rest@.skip(k + 1) =~= setting@.skip(start + k + 1));
                assert(pieces[0] == rest@.take(k as int));
                assert(pieces.drop_first() =~= text::split_on(rest@.skip(k + 1), ','));
            }
        }
        let ghost rest_names = named_pieces(pieces.drop_first());
        if !name.as_str().is_empty() {
            let ghost word = name@;
            out.push(name);
            proof {
                assert(text::text_views(out@) =~= before.push(word));
                assert(before + (seq![word] + rest_names) =~= text::text_views(out@) + rest_names);
            }
        }
        proof {
            assert(all == text::text_views(out@) + rest_names);
        }
        if last {
            proof {
                assert(text::text_views(out@) + rest_names =~= text::text_views(out@));
            }
            break;
        }
        start = start + k + 1;
    }
    out
}

/// The address at which a source gives the price of a symbol: placeholders of
/// the template stand for the base and the quote asset, written together, with
/// an underscore and with a hyphen between them.
pub open spec fn address_of(template: Seq<char>, symbol: Seq<char>) -> Seq<char> {
    let (base, quote) = match text::split_pair(symbol, '_') {
        Some(p) => p,
        None => (symbol, ""@),
    };
    text::replaced(
        text::replaced(
            text::replaced(template, "{BASEQUOTE}"@, base + quote),
            "{BASE_QUOTE}"@,
            symbol,
        ),
        "{BASE-QUOTE}"@,
        base + "-"@ + quote,
    )
}

pub fn source_address(template: &str, symbol: &str) -> (r: String)
    ensures
        r@ == address_of(template@, symbol@),
{
    let (base, quote) = match text::split_once(symbol, '_') {
        Some(p) => p,
        None => (text::owned(symbol), text::owned("")),
    };
    let mut joined = text::owned(base.as_str());
    joined.append(quote.as_str());
    let mut hyphened = base;
    hyphened.append("-");
    hyphened.append(quote.as_str());
    let a = text::replace_all(template, "{BASEQUOTE}", joined.as_str());
    let b = text::replace_all(a.as_str(), "{BASE_QUOTE}", symbol);
    text::replace_all(b.as_str(), "{BASE-QUOTE}", hyphened.as_str())
}

/// The prices that lie within `bps` ten-thousandths of `m`.
pub open spec fn near_to(prices: Seq<i64>, m: int, bps: int) -> Seq<i64>
    decreases prices.len(),
{
    if prices.len() == 0 {
        seq![]
    } else {
        let rest = near_to(prices.drop_last(), m, bps);
        let p = prices.last();
        if (p - m) * 10_000 < (bps + 1) * m && (m - p) * 10_000 < (bps + 1) * m {
            rest.push(p)
        } else {
            rest
        }
    }
}

/// `m` is the upper one of the middle prices: no more than half of them are
/// lower, and fewer than half, or exactly half less one, are higher.
pub open spec fn is_middle(prices: Seq<i64>, m: i64) -> bool {
    &&& prices.contains(m)
    &&& outside(prices, m as int, i64::MAX as int) <= prices.len() / 2
    &&& outside(prices, i64::MIN as int, m as int) <= prices.len() - prices.len() / 2 - 1
}

proof fn lemma_near(p: int, m: int, bps: int)
    requires
        m >= 1,
    ensures
        deviation_bps(p, m) <= bps <==> (p - m) * 10_000 < (bps + 1) * m && (m - p) * 10_000 < (bps
            + 1) * m,
{
    let gap = if p >= m {
        p - m
    } else {
        m - p
    };
    let q = (gap * 10_000) / m;
    vstd::arithmetic::div_mod::lemma_fundamental_div_mod(gap * 10_000, m);
    assert(q <= bps <==> gap * 10_000 < (bps + 1) * m) by (nonlinear_arith)
        requires
            gap * 10_000 == m * q + (gap * 10_000) % m,
            0 <= (gap * 10_000) % m < m,
            m >= 1,
    ;
    assert(gap >= 0 && (gap * 10_000 < (bps + 1) * m) ==> (bps + 1) * m > 0);
    if p >= m {
        assert((m - p) * 10_000 <= 0);
        assert(gap * 10_000 >= 0);
    } else {
        assert((p - m) * 10_000 <= 0);
        assert(gap * 10_000 >= 0);
    }
}

proof fn lemma_survivors_placed(s: Seq<i64>, x: i64, m: int, bps: int, lo: int, hi: int)
    ensures
        ({
            let kept = deviation_bps(x as int, m) <= bps;
            let a = survivors(placed(s, x), m, bps);
            let b = survivors(s, m, bps);
            &&& a.len() == b.len() + (if kept {
                1int
            } else {
                0int
            })
            &&& outside(a, lo, hi) == outside(b, lo, hi) + (if kept && !(lo <= x <= hi) {
                1int
            } else {
                0int
            })
        }),
    decreases s.len(),
{
    if s.len() == 0 || s.last() <= x {
        assert(s.push(x).drop_last() =~= s);
        let b = survivors(s, m, bps);
        assert(b.push(x).drop_last() =~= b);
    } else {
        lemma_survivors_placed(s.drop_last(), x, m, bps, lo, hi);
        let q = placed(s.drop_last(), x);
        assert(q.push(s.last()).drop_last() =~= q);
        let a = survivors(q, m, bps);
        let b = survivors(s.drop_last(), m, bps);
        assert(a.push(s.last()).drop_last() =~= a);
        assert(b.push(s.last()).drop_last() =~= b);
    }
}

proof fn lemma_survivors_near(prices: Seq<i64>, m: int, bps: int, lo: int, hi: int)
    requires
        m >= 1,
    ensures
        survivors(ascending(prices), m, bps).len() == near_to(prices, m, bps).len(),
        outside(survivors(ascending(prices), m, bps), lo, hi) == outside(
            near_to(prices, m, bps),
            lo,
            hi,
        ),
    decreases prices.len(),
{
    if prices.len() > 0 {
        let d = prices.drop_last();
        lemma_survivors_near(d, m, bps, lo, hi);
        lemma_survivors_placed(ascending(d), prices.last(), m, bps, lo, hi);
        lemma_near(prices.last() as int, m, bps);
        let n = near_to(d, m, bps);
        assert(n.push(prices.last()).drop_last() =~= n);
    }
}

proof fn lemma_outside_front(s: Seq<i64>, lo: int, hi: int, k: int)
    requires
        0 <= k <= s.len(),
        forall|i: int| k <= i < s.len() ==> lo <= #[trigger] s[i] <= hi,
    ensures
        outside(s, lo, hi) <= k,
    decreases s.len(),
{
    if s.len() > 0 {
        let d = s.drop_last();
        if k == s.len() {
            lemma_outside_front(d, lo, hi, k - 1);
        } else {
            assert forall|i: int| k <= i < d.len() implies lo <= #[trigger] d[i] <= hi by {
                assert(d[i] == s[i]);
            }
            lemma_outside_front(d, lo, hi, k);
            assert(lo <= s[s.len() - 1] <= hi);
        }
    }
}

proof fn lemma_outside_back(s: Seq<i64>, lo: int, hi: int, k: int)
    requires
        0 <= k <= s.len(),
        forall|i: int| 0 <= i < k ==> lo <= #[trigger] s[i] <= hi,
    ensures
        outside(s, lo, hi) <= s.len() - k,
    decreases s.len(),
{
    if s.len() > 0 {
        let d = s.drop_last();
        if k == s.len() {
            assert forall|i: int| 0 <= i < k - 1 implies lo <= #[trigger] d[i] <= hi by {
                assert(d[i] == s[i]);
            }
            lemma_outside_back(d, lo, hi, k - 1);
            assert(lo <= s[s.len() - 1] <= hi);
        } else {
            assert forall|i: int| 0 <= i < k implies lo <= #[trigger] d[i] <= hi by {
                assert(d[i] == s[i]);
            }
            lemma_outside_back(d, lo, hi, k);
        }
    }
}

proof fn lemma_near_member(prices: Seq<i64>, m: int, bps: int, r: i64)
    requires
        m >= 1,
        prices.contains(r),
        deviation_bps(r as int, m) <= bps,
    ensures
        near_to(prices, m, bps).contains(r),
    decreases prices.len(),
{
    let d = prices.drop_last();
    let n = near_to(d, m, bps);
    lemma_near(r as int, m, bps);
    let t = near_to(prices, m, bps);
    let i = choose|i: int| 0 <= i < prices.len() && prices[i] == r;
    if i == prices.len() - 1 {
        assert(t[n.len() as int] == r);
    } else {
        assert(d[i] == r);
        lemma_near_member(d, m, bps, r);
        let k = choose|k: int| 0 <= k < n.len() && n[k] == r;
        assert(t[k] == r);
    }
}

/// The index is the middle one of the prices that lie near the middle one of
/// all prices; there is none with fewer prices than are asked for, before or
/// after the far ones are dropped.
pub proof fn law_index_is_the_middle_of_the_near_prices(
    prices: Seq<i64>,
    outlier_bps: int,
    min_sources: int,
)
    requires
        prices.len() > 0,
        min_sources > 0,
        forall|i: int| 0 <= i < prices.len() ==> #[trigger] prices[i] > 0,
    ensures
        exists|m: i64| #[trigger]
            is_middle(prices, m) && {
                let near = near_to(prices, m as int, outlier_bps);
                match index_of(prices, outlier_bps, min_sources) {
                    Some(r) => prices.len() >= min_sources && near.len() >= min_sources
                        && is_middle(near, r),
                    None => prices.len() < min_sources || near.len() < min_sources,
                }
            },
        prices.len() < min_sources ==> index_of(prices, outlier_bps, min_sources) is None,
{
    let p = ascending(prices);
    let n = p.len() as int;
    lemma_ascending(prices);
    let m = p[n / 2];
    assert(p.contains(m));
    assert(prices.contains(m));
    let at = choose|i: int| 0 <= i < prices.len() && prices[i] == m;
    assert(prices[at] > 0);
    lemma_outside_ascending(prices, m as int, i64::MAX as int);
    lemma_outside_ascending(prices, i64::MIN as int, m as int);
    assert forall|i: int| n / 2 <= i < n implies m <= #[trigger] p[i] <= i64::MAX by {
        assert(p[n / 2] <= p[i]);
    }
    assert forall|i: int| 0 <= i < n / 2 + 1 implies i64::MIN <= #[trigger] p[i] <= m by {
        assert(p[i] <= p[n / 2]);
    }
    lemma_outside_front(p, m as int, i64::MAX as int, n / 2);
    lemma_outside_back(p, i64::MIN as int, m as int, n / 2 + 1);
    assert(is_middle(prices, m));
    let left = survivors(p, m as int, outlier_bps);
    let near = near_to(prices, m as int, outlier_bps);
    lemma_survivors(p, m as int, outlier_bps, 0, 0);
    lemma_survivors_near(prices, m as int, outlier_bps, 0, 0);
    if index_of(prices, outlier_bps, min_sources) is Some {
        let k = left.len() as int / 2;
        let r = left[k];
        lemma_survivors_near(prices, m as int, outlier_bps, r as int, i64::MAX as int);
        lemma_survivors_near(prices, m as int, outlier_bps, i64::MIN as int, r as int);
        assert forall|i: int| k <= i < left.len() implies r <= #[trigger] left[i] <= i64::MAX by {
            assert(left[k] <= left[i]);
        }
        assert forall|i: int| 0 <= i < k + 1 implies i64::MIN <= #[trigger] left[i] <= r by {
            assert(left[i] <= left[k]);
        }
        lemma_outside_front(left, r as int, i64::MAX as int, k);
        lemma_outside_back(left, i64::MIN as int, r as int, k + 1);
        assert(p.contains(r));
        assert(deviation_bps(left[k] as int, m as int) <= outlier_bps);
        lemma_near_member(prices, m as int, outlier_bps, r);
        assert(is_middle(near, r));
    }
}

/// A price counts while it is no older than the limit, and is then the one that
/// was stored last.
pub proof fn law_stale_prices_do_not_count(
    quotes: Map<Symbol, (i64, i64)>,
    symbol: Symbol,
    price: i64,
    stored_ms: i64,
    now_ms: int,
    staleness_ms: int,
)
    ensures
        fresh_price(
            quotes.insert(symbol, (price, stored_ms)),
            symbol,
            now_ms,
            staleness_ms,
        ) == (if now_ms <= stored_ms + staleness_ms {
            Some(price)
        } else {
            None
        }),
        !quotes.contains_key(symbol) ==> fresh_price(quotes, symbol, now_ms, staleness_ms) is None,
{
}

/// The band around an index reaches as far below as above it, in
/// ten-thousandths of the index, less than a tick apart.
pub proof fn law_band_surrounds_the_index(index: int, clamp_bps: int)
    requires
        0 <= index,
        2 * index <= i64::MAX,
        0 <= clamp_bps <= 10_000,
    ensures
        ({
            let lo = band_edge(index, 10_000 - clamp_bps);
            let hi = band_edge(index, 10_000 + clamp_bps);
            &&& 0 <= lo <= index <= hi
            &&& (index - lo) * 10_000 - 10_000 < index * clamp_bps <= (index - lo) * 10_000
            &&& (hi - index) * 10_000 <= index * clamp_bps < (hi - index) * 10_000 + 10_000
        }),
{
    let a = index * (10_000 - clamp_bps);
    let b = index * (10_000 + clamp_bps);
    assert(a == index * 10_000 - index * clamp_bps && b == index * 10_000 + index * clamp_bps)
        by (nonlinear_arith)
        requires
            a == index * (10_000 - clamp_bps),
            b == index * (10_000 + clamp_bps),
    ;
    assert(0 <= index * clamp_bps <= index * 10_000) by (nonlinear_arith)
        requires
            0 <= clamp_bps <= 10_000,
            index >= 0,
    ;
    money::law_division_rounds_toward_zero(a, 10_000);
    money::law_division_rounds_toward_zero(b, 10_000);
}

/// No brace stands in a text.
pub open spec fn unbraced(s: Seq<char>) -> bool {
    forall|i: int| 0 <= i < s.len() ==> #[trigger] s[i] != '{'
}

proof fn lemma_one_placeholder(
    before: Seq<char>,
    placeholder: Seq<char>,
    after: Seq<char>,
    part: Seq<char>,
    by: Seq<char>,
)
    requires
        unbraced(before),
        unbraced(after),
        placeholder.len() > 1,
        placeholder[0] == '{',
        unbraced(placeholder.skip(1)),
        part.len() > 0,
        part[0] == '{',
        part == placeholder || (exists|j: int|
            0 <= j < part.len() && j < placeholder.len() && part[j] != placeholder[j]),
    ensures
        part == placeholder ==> text::replaced(before + placeholder + after, part, by) == before
            + by + after,
        part != placeholder ==> text::replaced(before + placeholder + after, part, by) == before
            + placeholder + after,
{
    let s = before + placeholder + after;
    let n = part.len() as int;
    let k = before.len() as int;
    let m = placeholder.len() as int;
    assert forall|i: int| 0 <= i < s.len() && i != k implies s[i] != '{' by {
        if i < k {
            assert(s[i] == before[i]);
        } else if i < k + m {
            assert(s[i] == placeholder.skip(1)[i - k - 1]);
        } else {
            assert(s[i] == after[i - k - m]);
        }
    }
    assert forall|i: int| 0 <= i < s.len() && i != k && i + n <= s.len() implies #[trigger] s.subrange(
        i,
        i + n,
    ) != part by {
        assert(s.subrange(i, i + n)[0] == s[i]);
    }
    if part == placeholder {
        text::law_first_place_is_replaced(s, part, by, k);
        assert(s.subrange(k, k + n) =~= part);
        assert(s.take(k) =~= before);
        assert(s.skip(k + n) =~= after);
        assert forall|i: int| 0 <= i < after.len() && i + n <= after.len() implies #[trigger] after.subrange(
            i,
            i + n,
        ) != part by {
            assert(after.subrange(i, i + n)[0] == after[i]);
        }
        text::law_first_place_is_replaced(after, part, by, after.len() as int);
    } else {
        let j = choose|j: int|
            0 <= j < part.len() && j < placeholder.len() && part[j] != placeholder[j];
        if k + n <= s.len() {
            assert(s.subrange(k, k + n)[j] == placeholder[j]);
        }
        text::law_first_place_is_replaced(s, part, by, s.len() as int);
    }
}

proof fn lemma_unbraced_stays(s: Seq<char>, part: Seq<char>, by: Seq<char>)
    requires
        unbraced(s),
        part.len() > 0,
        part[0] == '{',
    ensures
        text::replaced(s, part, by) == s,
{
    let n = part.len() as int;
    assert forall|i: int| 0 <= i < s.len() && i + n <= s.len() implies #[trigger] s.subrange(
        i,
        i + n,
    ) != part by {
        assert(s.subrange(i, i + n)[0] == s[i]);
    }
    text::law_first_place_is_replaced(s, part, by, s.len() as int);
}

/// A source's address has the assets where the template has its placeholder:
/// base and quote written together, with an underscore, or with a hyphen between
/// them.
pub proof fn law_address_names_the_symbol(
    before: Seq<char>,
    after: Seq<char>,
    base: Seq<char>,
    quote: Seq<char>,
)
    requires
        unbraced(before),
        unbraced(after),
        unbraced(base),
        unbraced(quote),
        forall|i: int| 0 <= i < base.len() ==> #[trigger] base[i] != '_',
    ensures
        address_of(before + "{BASEQUOTE}"@ + after, base + seq!['_'] + quote) == before + (base
            + quote) + after,
        address_of(before + "{BASE_QUOTE}"@ + after, base + seq!['_'] + quote) == before + (base
            + seq!['_'] + quote) + after,
        address_of(before + "{BASE-QUOTE}"@ + after, base + seq!['_'] + quote) == before + (base
            + seq!['-'] + quote) + after,
{
    reveal_strlit("{BASEQUOTE}");
    reveal_strlit("{BASE_QUOTE}");
    reveal_strlit("{BASE-QUOTE}");
    reveal_strlit("-");
    let joined = "{BASEQUOTE}"@;
    let underscored = "{BASE_QUOTE}"@;
    let hyphened = "{BASE-QUOTE}"@;
    let symbol = base + seq!['_'] + quote;
    let hyphen = base + "-"@ + quote;
    assert(hyphen =~= base + seq!['-'] + quote);
    let k = base.len() as int;
    assert forall|i: int| 0 <= i < k implies symbol[i] != '_' by {
        assert(symbol[i] == base[i]);
    }
    text::lemma_index_of_char_is(symbol, '_', k);
    assert(symbol.take(k) =~= base);
    assert(symbol.skip(k + 1) =~= quote);
    assert(joined[5] == 'Q' && underscored[5] == '_' && hyphened[5] == '-');
    assert(unbraced(joined.skip(1)) && unbraced(underscored.skip(1)) && unbraced(hyphened.skip(1)));
    assert(part_differs(joined, underscored) && part_differs(joined, hyphened) && part_differs(
        underscored,
        hyphened,
    ));
    let a = before + (base + quote) + after;
    let b = before + symbol + after;
    let c = before + hyphen + after;
    assert(unbraced(a));
    assert(unbraced(b));
    assert(unbraced(c));
    lemma_one_placeholder(before, joined, after, joined, base + quote);
    lemma_unbraced_stays(a, underscored, symbol);
    lemma_unbraced_stays(a, hyphened, hyphen);
    lemma_one_placeholder(before, underscored, after, joined, base + quote);
    lemma_one_placeholder(before, underscored, after, underscored, symbol);
    lemma_unbraced_stays(b, hyphened, hyphen);
    lemma_one_placeholder(before, hyphened, after, joined, base + quote);
    lemma_one_placeholder(before, hyphened, after, underscored, symbol);
    lemma_one_placeholder(before, hyphened, after, hyphened, hyphen);
}

/// Two texts differ at a place that both have.
spec fn part_differs(a: Seq<char>, b: Seq<char>) -> bool {
    exists|j: int| 0 <= j < a.len() && j < b.len() && a[j] != b[j]
}

/// The sources named are the pieces of the setting that are more than spaces.
pub proof fn law_every_named_source_is_listed(pieces: Seq<Seq<char>>, name: Seq<char>)
    ensures
        named_pieces(pieces).contains(name) <==> name.len() > 0 && exists|i: int|
            0 <= i < pieces.len() && #[trigger] text::trimmed(pieces[i]) == name,
        named_pieces(pieces).len() <= pieces.len(),
    decreases pieces.len(),
{
    if pieces.len() > 0 {
        let d = pieces.drop_first();
        let first = text::trimmed(pieces[0]);
        law_every_named_source_is_listed(d, name);
        let rest = named_pieces(d);
        let all = named_pieces(pieces);
        let shift: int = if first.len() == 0 {
            0
        } else {
            1
        };
        assert forall|i: int| 0 <= i < rest.len() implies all[i + shift] == #[trigger] rest[i] by {}
        if rest.contains(name) {
            let j = choose|j: int| 0 <= j < rest.len() && rest[j] == name;
            assert(all[j + shift] == name);
            let i = choose|i: int| 0 <= i < d.len() && #[trigger] text::trimmed(d[i]) == name;
            assert(text::trimmed(pieces[i + 1]) == name);
        }
        if first.len() > 0 && first == name {
            assert(all[0] == name);
        }
        if all.contains(name) && !rest.contains(name) {
            let j = choose|j: int| 0 <= j < all.len() && all[j] == name;
            if j >= shift {
                assert(rest[j - shift] == name);
            }
            assert(text::trimmed(pieces[0]) == name);
        }
        if name.len() > 0 && exists|i: int|
            0 <= i < pieces.len() && #[trigger] text::trimmed(pieces[i]) == name {
            let i = choose|i: int|
                0 <= i < pieces.len() && #[trigger] text::trimmed(pieces[i]) == name;
            if i > 0 {
                assert(text::trimmed(d[i - 1]) == name);
            }
        }
    }
}

/// A counter goes up by what happened, modulo its range.
pub proof fn law_counter_goes_up_by_what_happened(c: u64, n: int)
    requires
        0 <= n <= u64::MAX,
    ensures
        c + n <= u64::MAX ==> counted(c, n) == c + n,
        counted(c, n) == (c + n) % 0x1_0000_0000_0000_0000,
{
}

} // verus!
