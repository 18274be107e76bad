//! What every trade keeps: long and short lots of a symbol stay equal, and the
//! used margin of an account stays the sum of what its positions bind.
use super::engine;
use super::engine::RiskView;
use super::position;
use super::position::Fill;
use super::types::{PositionRiskState, PositionSide};
use crate::maps::Symbol;
use crate::money;
use vstd::prelude::*;

verus! {

/// The sum of a figure over a finite set.
pub open spec fn sum_over<A>(members: Set<A>, figure: spec_fn(A) -> int) -> int
    decreases members.len(),
{
    if members.finite() && members.len() > 0 {
        let a = members.choose();
        figure(a) + sum_over(members.remove(a), figure)
    } else {
        0
    }
}

proof fn lemma_sum_split<A>(members: Set<A>, figure: spec_fn(A) -> int, a: A)
    requires
        members.finite(),
        members.contains(a),
    ensures
        sum_over(members, figure) == figure(a) + sum_over(members.remove(a), figure),
    decreases members.len(),
{
    let c = members.choose();
    assert(members.len() > 0) by {
        if members.len() == 0 {
            members.lemma_len0_is_empty();
        }
    }
    assert(members.contains(c));
    if c != a {
        lemma_sum_split(members.remove(c), figure, a);
        lemma_sum_split(members.remove(a), figure, c);
        assert(members.remove(c).remove(a) =~= members.remove(a).remove(c));
    }
}

proof fn lemma_sum_same<A>(members: Set<A>, f: spec_fn(A) -> int, g: spec_fn(A) -> int)
    requires
        members.finite(),
        forall|a: A| #[trigger] members.contains(a) ==> f(a) == g(a),
    ensures
        sum_over(members, f) == sum_over(members, g),
    decreases members.len(),
{
    if members.len() > 0 {
        let c = members.choose();
        assert(members.contains(c));
        lemma_sum_same(members.remove(c), f, g);
    }
}

/// A sum whose figure changes at one place only, where that place counts
/// nothing when it is no member.
proof fn lemma_sum_moved<A>(
    before: Set<A>,
    after: Set<A>,
    f: spec_fn(A) -> int,
    g: spec_fn(A) -> int,
    a: A,
)
    requires
        before.finite(),
        after.finite(),
        before.remove(a) =~= after.remove(a),
        !before.contains(a) ==> f(a) == 0,
        !after.contains(a) ==> g(a) == 0,
        forall|b: A| #[trigger] before.contains(b) && b != a ==> f(b) == g(b),
    ensures
        sum_over(after, g) == sum_over(before, f) + g(a) - f(a),
{
    let rest = before.remove(a);
    if before.contains(a) {
        lemma_sum_split(before, f, a);
    } else {
        assert(rest =~= before);
    }
    if after.contains(a) {
        lemma_sum_split(after, g, a);
    } else {
        assert(after =~= rest);
    }
    assert forall|b: A| #[trigger] rest.contains(b) implies f(b) == g(b) by {
        assert(before.contains(b));
    }
    lemma_sum_same(rest, f, g);
}

/// Lots with their sign: long counts up, short counts down.
pub open spec fn signed_lots(p: Option<PositionRiskState>) -> int {
    match p {
        Some(pos) => match pos.side {
            PositionSide::Long => pos.qty_lots as int,
            PositionSide::Short => -(pos.qty_lots as int),
        },
        None => 0,
    }
}

pub open spec fn signed_fill(f: Fill) -> int {
    match f.side() {
        PositionSide::Long => f.qty_lots as int,
        PositionSide::Short => -(f.qty_lots as int),
    }
}

/// Long minus short lots of a symbol.
pub open spec fn net_exposure(v: RiskView, symbol: Symbol) -> int {
    sum_over(
        engine::holders_of(v, symbol),
        |u: i64| signed_lots(engine::entry(v.positions, (u, symbol))),
    )
}

proof fn lemma_fill_moves_exposure(v: RiskView, f: Fill, symbol: Symbol)
    requires
        v.consistent(),
        f.qty_lots > 0,
        engine::fill_fits(v, f),
    ensures
        net_exposure(engine::filled(v, f), symbol) == net_exposure(v, symbol) + (if symbol
            == f.symbol {
            signed_fill(f)
        } else {
            0
        }),
{
    let w = engine::filled(v, f);
    engine::law_fill_keeps_book_consistent(v, f);
    let before = engine::holders_of(v, symbol);
    let after = engine::holders_of(w, symbol);
    let x = |u: i64| signed_lots(engine::entry(v.positions, (u, symbol)));
    let y = |u: i64| signed_lots(engine::entry(w.positions, (u, symbol)));
    let u = f.user_id;
    assert(before.finite() && after.finite());
    assert forall|b: i64| before.remove(u).contains(b) <==> after.remove(u).contains(b) by {
        if b != u {
            assert(before.contains(b) <==> v.positions.contains_key((b, symbol)));
            assert(after.contains(b) <==> w.positions.contains_key((b, symbol)));
        }
    }
    assert(before.contains(u) <==> v.positions.contains_key((u, symbol)));
    assert(after.contains(u) <==> w.positions.contains_key((u, symbol)));
    lemma_sum_moved(before, after, x, y, u);
    if symbol == f.symbol {
        let old_pos = engine::entry(v.positions, f.key());
        let update = position::updated(old_pos, f, f.settlement_price());
        assert(engine::entry(w.positions, f.key()) == update.position);
        if old_pos is Some {
            assert(v.positions.contains_key(f.key()));
            assert(v.positions[f.key()].qty_lots > 0);
        }
        assert(signed_lots(update.position) == signed_lots(old_pos) + signed_fill(f));
    }
}

/// Whoever trades with whom: the buyer's and the seller's fill of one trade
/// together leave the long and the short lots of every symbol as far apart as
/// they were. Where they were equal they stay equal.
pub proof fn law_trade_keeps_exposure_even(v: RiskView, buy: Fill, sell: Fill, symbol: Symbol)
    requires
        v.consistent(),
        buy.symbol == sell.symbol,
        buy.qty_lots == sell.qty_lots,
        buy.qty_lots > 0,
        buy.order_side == 0,
        sell.order_side != 0,
        engine::fill_fits(v, buy),
        engine::fill_fits(engine::filled(v, buy), sell),
    ensures
        net_exposure(engine::filled(engine::filled(v, buy), sell), symbol) == net_exposure(
            v,
            symbol,
        ),
{
    engine::law_fill_keeps_book_consistent(v, buy);
    lemma_fill_moves_exposure(v, buy, symbol);
    lemma_fill_moves_exposure(engine::filled(v, buy), sell, symbol);
}

/// Marking a symbol moves no exposure.
pub proof fn law_mark_moves_no_exposure(
    v: RiskView,
    marked_symbol: Symbol,
    price: i64,
    scale: i64,
    symbol: Symbol,
)
    requires
        v.consistent(),
    ensures
        net_exposure(engine::marked(v, marked_symbol, price, scale), symbol) == net_exposure(
            v,
            symbol,
        ),
{
    let w = engine::marked(v, marked_symbol, price, scale);
    let members = engine::holders_of(v, symbol);
    assert(members.finite());
    assert(engine::holders_of(w, symbol) == members);
    let x = |u: i64| signed_lots(engine::entry(v.positions, (u, symbol)));
    let y = |u: i64| signed_lots(engine::entry(w.positions, (u, symbol)));
    assert forall|u: i64| #[trigger] members.contains(u) implies x(u) == y(u) by {
        assert(w.positions.contains_key((u, symbol)) == v.positions.contains_key((u, symbol)));
    }
    lemma_sum_same(members, x, y);
}

pub open spec fn margin_of(p: Option<PositionRiskState>) -> int {
    match p {
        Some(pos) => pos.initial_margin as int,
        None => 0,
    }
}

/// The symbols in which a user has a position.
pub open spec fn symbols_of(v: RiskView, user_id: i64) -> Set<Symbol> {
    Set::new(|s: Symbol| v.positions.contains_key((user_id, s)))
}

/// What the positions of a user bind.
pub open spec fn positions_margin(v: RiskView, user_id: i64) -> int {
    sum_over(
        symbols_of(v, user_id),
        |s: Symbol| margin_of(engine::entry(v.positions, (user_id, s))),
    )
}

/// The used margin of a user is what their positions bind.
pub open spec fn margin_adds_up(v: RiskView, user_id: i64) -> bool {
    &&& symbols_of(v, user_id).finite()
    &&& v.accounts.contains_key(user_id) ==> v.accounts[user_id].used_margin == positions_margin(
        v,
        user_id,
    )
}

/// What a fill does to its position.
pub open spec fn fill_change(v: RiskView, f: Fill) -> position::PositionUpdate {
    position::updated(engine::entry(v.positions, f.key()), f, f.settlement_price())
}

/// Whether a fill closes lots: it trades against a position of the other side.
pub open spec fn fill_closes(v: RiskView, f: Fill) -> bool {
    engine::entry(v.positions, f.key()) matches Some(pos) && pos.side != f.side()
}

/// Whether a fill books its margin where its position takes it. An opening
/// always does. A close does where it sets some margin free, and no more than
/// is in use; one that sets none free is booked as an opening, which makes no
/// difference only where the fill brings what the position gains.
pub open spec fn margin_booked(v: RiskView, f: Fill) -> bool {
    fill_closes(v, f) && v.accounts.contains_key(f.user_id) ==> {
        let released = fill_change(v, f).released_margin;
        ||| 0 < released <= v.accounts[f.user_id].used_margin
        ||| released <= 0 && f.margin_atoms == margin_of(fill_change(v, f).position) - margin_of(
            engine::entry(v.positions, f.key()),
        )
    }
}

/// No position of a user binds less than nothing.
pub open spec fn margins_not_negative(v: RiskView, user_id: i64) -> bool {
    forall|s: Symbol| #[trigger]
        v.positions.contains_key((user_id, s)) ==> v.positions[(user_id, s)].initial_margin >= 0
}

proof fn lemma_share_within(margin: int, qty: int, lots: int)
    requires
        margin >= 0,
        0 <= qty <= lots,
        lots > 0,
    ensures
        0 <= money::trunc_div(margin * qty, lots) <= margin,
{
    assert(0 <= margin * qty <= margin * lots) by (nonlinear_arith)
        requires
            margin >= 0,
            0 <= qty <= lots,
    ;
    vstd::arithmetic::div_mod::lemma_div_is_ordered(margin * qty, margin * lots, lots);
    vstd::arithmetic::div_mod::lemma_div_pos_is_pos(margin * qty, lots);
    vstd::arithmetic::div_mod::lemma_div_by_multiple(margin, lots);
}

proof fn lemma_sum_at_least<A>(members: Set<A>, figure: spec_fn(A) -> int, a: A)
    requires
        members.finite(),
        forall|b: A| #[trigger] members.contains(b) ==> figure(b) >= 0,
    ensures
        sum_over(members, figure) >= 0,
        members.contains(a) ==> sum_over(members, figure) >= figure(a),
    decreases members.len(),
{
    if members.len() > 0 {
        let c = members.choose();
        assert(members.contains(c));
        lemma_sum_at_least(members.remove(c), figure, a);
    }
    if members.contains(a) {
        lemma_sum_split(members, figure, a);
        assert(members.remove(a).len() < members.len());
        lemma_sum_at_least(members.remove(a), figure, a);
    }
}

/// A fill keeps the used margin of every account equal to what its positions
/// bind, exactly where its own margin is booked.
pub proof fn law_fill_keeps_margin_adding_up(v: RiskView, f: Fill, user_id: i64)
    requires
        v.consistent(),
        f.qty_lots > 0,
        engine::fill_fits(v, f),
        margin_adds_up(v, user_id),
    ensures
        margin_adds_up(engine::filled(v, f), user_id) <==> (user_id == f.user_id ==> margin_booked(
            v,
            f,
        )),
{
    let w = engine::filled(v, f);
    let before = symbols_of(v, user_id);
    let after = symbols_of(w, user_id);
    let x = |s: Symbol| margin_of(engine::entry(v.positions, (user_id, s)));
    let y = |s: Symbol| margin_of(engine::entry(w.positions, (user_id, s)));
    if user_id != f.user_id {
        assert(after =~= before);
        lemma_sum_same(before, x, y);
    } else {
        let old_pos = engine::entry(v.positions, f.key());
        let update = fill_change(v, f);
        assert(engine::entry(w.positions, f.key()) == update.position);
        assert(after.remove(f.symbol) =~= before.remove(f.symbol));
        assert(after.subset_of(before.insert(f.symbol)));
        vstd::set_lib::lemma_set_subset_finite(before.insert(f.symbol), after);
        lemma_sum_moved(before, after, x, y, f.symbol);
        if old_pos is Some {
            assert(v.positions.contains_key(f.key()));
            assert(v.positions[f.key()].qty_lots > 0);
        }
    }
}

/// While no position binds less than nothing, a close never sets free more than
/// is in use, so that its margin is booked wherever it sets any free; and a
/// fill whose own margin is not negative keeps it so.
pub proof fn law_margins_stay_covered(v: RiskView, f: Fill, user_id: i64)
    requires
        v.consistent(),
        f.qty_lots > 0,
        engine::fill_fits(v, f),
        margin_adds_up(v, user_id),
        margins_not_negative(v, user_id),
    ensures
        f.margin_atoms >= 0 ==> margins_not_negative(engine::filled(v, f), user_id),
        user_id == f.user_id && v.accounts.contains_key(user_id) && fill_closes(v, f)
            ==> fill_change(v, f).released_margin <= v.accounts[user_id].used_margin,
        user_id == f.user_id && fill_change(v, f).released_margin > 0 ==> margin_booked(v, f),
{
    let w = engine::filled(v, f);
    let before = symbols_of(v, user_id);
    let x = |s: Symbol| margin_of(engine::entry(v.positions, (user_id, s)));
    if user_id == f.user_id {
        let old_pos = engine::entry(v.positions, f.key());
        let update = fill_change(v, f);
        assert(engine::entry(w.positions, f.key()) == update.position);
        assert forall|s: Symbol| #[trigger] before.contains(s) implies x(s) >= 0 by {
            assert(v.positions.contains_key((user_id, s)));
        }
        lemma_sum_at_least(before, x, f.symbol);
        if old_pos is Some {
            let pos = old_pos->0;
            assert(v.positions.contains_key(f.key()));
            assert(before.contains(f.symbol));
            assert(pos.qty_lots > 0 && pos.initial_margin >= 0);
            if pos.side != f.side() {
                if f.qty_lots < pos.qty_lots {
                    lemma_share_within(
                        pos.initial_margin as int,
                        f.qty_lots as int,
                        pos.qty_lots as int,
                    );
                } else if f.qty_lots > pos.qty_lots && f.margin_atoms >= 0 {
                    lemma_share_within(
                        f.margin_atoms as int,
                        f.qty_lots - pos.qty_lots,
                        f.qty_lots as int,
                    );
                }
            }
        }
        assert(f.margin_atoms >= 0 ==> margin_of(update.position) >= 0);
    }
    if f.margin_atoms >= 0 {
        assert forall|s: Symbol| #[trigger]
            w.positions.contains_key((user_id, s)) implies w.positions[(
            user_id,
            s,
        )].initial_margin >= 0 by {
            if user_id != f.user_id || s != f.symbol {
                assert(v.positions.contains_key((user_id, s)));
            }
        }
    }
}

/// Neither a mark nor a risk tick moves bound margin.
pub proof fn law_marks_and_ticks_keep_margin_adding_up(
    v: RiskView,
    symbol: Symbol,
    price: i64,
    scale: i64,
    user_id: i64,
)
    requires
        v.consistent(),
        symbols_of(v, user_id).finite(),
    ensures
        margin_adds_up(engine::marked(v, symbol, price, scale), user_id) == margin_adds_up(
            v,
            user_id,
        ),
        margin_adds_up(engine::ticked(v), user_id) == margin_adds_up(v, user_id),
{
    let w = engine::marked(v, symbol, price, scale);
    let t = engine::ticked(v);
    let members = symbols_of(v, user_id);
    assert(symbols_of(w, user_id) =~= members);
    assert(symbols_of(t, user_id) =~= members);
    let x = |s: Symbol| margin_of(engine::entry(v.positions, (user_id, s)));
    let y = |s: Symbol| margin_of(engine::entry(w.positions, (user_id, s)));
    let z = |s: Symbol| margin_of(engine::entry(t.positions, (user_id, s)));
    assert forall|s: Symbol| #[trigger] members.contains(s) implies x(s) == y(s) && x(s) == z(
        s,
    ) by {
        assert(v.positions.contains_key((user_id, s)));
        assert(w.positions.contains_key((user_id, s)));
    }
    lemma_sum_same(members, x, y);
    lemma_sum_same(members, x, z);
}

} // verus!
