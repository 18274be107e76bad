//! Trigger orders: stops and take-profits parked until the mark crosses them.
use crate::risk::types::PositionSide;
use crate::text;
use std::collections::BTreeMap;
use vstd::prelude::*;

verus! {

broadcast use {vstd::laws_cmp::group_laws_cmp, vstd::std_specs::btree::group_btree_axioms};

/// A trigger waiting for the mark.
#[derive(Debug, Clone, Copy, PartialEq, Eq, Structural)]
pub struct PendingTrigger {
    pub id: i64,
    pub user_id: i64,
    /// 0 for a buy, 1 for a sell.
    pub side: u8,
    pub is_market: bool,
    pub trigger_price_ticks: i64,
    /// The limit price; a market trigger has none.
    pub price_ticks: Option<i64>,
    pub qty_lots: i64,
}

/// From which side the mark has to reach the trigger.
#[derive(Debug, Clone, Copy, PartialEq, Eq, Structural)]
pub enum TriggerWhen {
    /// Fires once the mark is at or above the trigger.
    Rising,
    /// Fires once the mark is at or below the trigger.
    Falling,
}

impl TriggerWhen {
    pub open spec fn db_name(self) -> Seq<char> {
        match self {
            TriggerWhen::Rising => "rising"@,
            TriggerWhen::Falling => "falling"@,
        }
    }

    pub fn as_db_str(self) -> (r: &'static str)
        ensures
            r@ == self.db_name(),
    {
        match self {
            TriggerWhen::Rising => "rising",
            TriggerWhen::Falling => "falling",
        }
    }

    /// The direction with this name, where there is one.
    pub fn from_db_str(s: &str) -> (r: Option<TriggerWhen>)
        ensures
            r == (if s@ == TriggerWhen::Rising.db_name() {
                Some(TriggerWhen::Rising)
            } else if s@ == TriggerWhen::Falling.db_name() {
                Some(TriggerWhen::Falling)
            } else {
                None
            }),
    {
        if text::str_eq(s, "rising") {
            Some(TriggerWhen::Rising)
        } else if text::str_eq(s, "falling") {
            Some(TriggerWhen::Falling)
        } else {
            None
        }
    }

    /// A stop protects a position: a buy fires on the way up, a sell on the
    /// way down.
    pub fn default_for_side(side: u8) -> (r: TriggerWhen)
        ensures
            r == (if side == 0 {
                TriggerWhen::Rising
            } else {
                TriggerWhen::Falling
            }),
    {
        if side == 0 {
            TriggerWhen::Rising
        } else {
            TriggerWhen::Falling
        }
    }
}

/// Each direction's name reads back as that direction.
pub proof fn law_direction_names_are_distinct()
    ensures
        TriggerWhen::Rising.db_name() != TriggerWhen::Falling.db_name(),
{
    reveal_strlit("rising");
    reveal_strlit("falling");
    assert("rising"@.len() == 6);
    assert("falling"@.len() == 7);
}

pub open spec fn trigger_key(t: PendingTrigger) -> (i64, i64) {
    (t.trigger_price_ticks, t.id)
}

/// Price first, then id.
pub open spec fn key_below(a: (i64, i64), b: (i64, i64)) -> bool {
    a.0 < b.0 || (a.0 == b.0 && a.1 < b.1)
}

/// Finitely many triggers, each under its own key.
pub open spec fn keyed(m: Map<(i64, i64), PendingTrigger>) -> bool {
    &&& m.dom().finite()
    &&& forall|k: (i64, i64)| #[trigger] m.contains_key(k) ==> trigger_key(m[k]) == k
}

/// Every trigger stands before those with a higher key, and no key occurs twice.
pub open spec fn ordered(s: Seq<PendingTrigger>) -> bool {
    forall|i: int, j: int|
        0 <= i < j < s.len() ==> key_below(trigger_key(#[trigger] s[i]), trigger_key(#[trigger] s[j]))
}

/// The keys of a sequence of triggers.
pub open spec fn keys_of(s: Seq<PendingTrigger>) -> Set<(i64, i64)> {
    Set::new(|k: (i64, i64)| exists|i: int| 0 <= i < s.len() && trigger_key(#[trigger] s[i]) == k)
}

/// `s` holds the triggers of `m`, each once, by ascending key.
pub open spec fn lists(s: Seq<PendingTrigger>, m: Map<(i64, i64), PendingTrigger>) -> bool {
    &&& ordered(s)
    &&& keys_of(s) == m.dom()
    &&& forall|i: int| 0 <= i < s.len() ==> m[trigger_key(#[trigger] s[i])] == s[i]
}

/// The triggers by ascending key.
pub open spec fn in_order(m: Map<(i64, i64), PendingTrigger>) -> Seq<PendingTrigger> {
    choose|s: Seq<PendingTrigger>| lists(s, m)
}

/// Whether the mark has reached the trigger.
pub open spec fn reached(when: TriggerWhen, trigger: int, mark: int) -> bool {
    match when {
        TriggerWhen::Rising => trigger <= mark,
        TriggerWhen::Falling => trigger >= mark,
    }
}

/// The armed triggers that the mark has reached.
pub open spec fn fired(
    m: Map<(i64, i64), PendingTrigger>,
    when: TriggerWhen,
    mark: int,
) -> Map<(i64, i64), PendingTrigger> {
    m.restrict(Set::new(|k: (i64, i64)| reached(when, k.0 as int, mark)))
}

/// The armed triggers that the mark has not reached.
pub open spec fn kept(
    m: Map<(i64, i64), PendingTrigger>,
    when: TriggerWhen,
    mark: int,
) -> Map<(i64, i64), PendingTrigger> {
    m.restrict(Set::new(|k: (i64, i64)| !reached(when, k.0 as int, mark)))
}

/// The triggers of one symbol, by price and id.
pub struct TriggerBook {
    /// Those due are the lowest.
    rising: BTreeMap<(i64, i64), PendingTrigger>,
    /// Those due are the highest.
    falling: BTreeMap<(i64, i64), PendingTrigger>,
}

/// The lowest key: `BTreeMap::first_key_value`, of whose pair only the key is
/// handed on. There is one unless the map is empty, and no key of the map is
/// below it in the order of pairs.
#[verifier::external_body]
fn lowest_key(m: &BTreeMap<(i64, i64), PendingTrigger>) -> (r: Option<(i64, i64)>)
    ensures
        match r {
            Some(k) => m@.contains_key(k) && forall|o: (i64, i64)| #[trigger]
                m@.contains_key(o) ==> !key_below(o, k),
            None => m@.dom() == Set::<(i64, i64)>::empty(),
        },
{
    match m.first_key_value() {
        Some((k, _)) => Some(*k),
        None => None,
    }
}

/// The highest key: `BTreeMap::last_key_value`, of whose pair only the key is
/// handed on. There is one unless the map is empty, and no key of the map is
/// above it in the order of pairs.
#[verifier::external_body]
fn highest_key(m: &BTreeMap<(i64, i64), PendingTrigger>) -> (r: Option<(i64, i64)>)
    ensures
        match r {
            Some(k) => m@.contains_key(k) && forall|o: (i64, i64)| #[trigger]
                m@.contains_key(o) ==> !key_below(k, o),
            None => m@.dom() == Set::<(i64, i64)>::empty(),
        },
{
    match m.last_key_value() {
        Some((k, _)) => Some(*k),
        None => None,
    }
}

proof fn lemma_keys_push(s: Seq<PendingTrigger>, t: PendingTrigger)
    ensures
        keys_of(s.push(t)) == keys_of(s).insert(trigger_key(t)),
{
    let after = s.push(t);
    let goal = keys_of(s).insert(trigger_key(t));
    assert forall|k: (i64, i64)| goal.contains(k) implies keys_of(after).contains(k) by {
        if k == trigger_key(t) {
            assert(trigger_key(after[s.len() as int]) == k);
        } else {
            let i = choose|i: int| 0 <= i < s.len() && trigger_key(#[trigger] s[i]) == k;
            assert(trigger_key(after[i]) == k);
        }
    }
    assert forall|k: (i64, i64)| keys_of(after).contains(k) implies goal.contains(k) by {
        let i = choose|i: int| 0 <= i < after.len() && trigger_key(#[trigger] after[i]) == k;
        if i < s.len() {
            assert(trigger_key(s[i]) == k);
        }
    }
    assert(keys_of(after) =~= goal);
}

proof fn lemma_keys_reverse(s: Seq<PendingTrigger>)
    ensures
        keys_of(s.reverse()) == keys_of(s),
{
    let r = s.reverse();
    assert forall|k: (i64, i64)| keys_of(s).contains(k) implies keys_of(r).contains(k) by {
        let i = choose|i: int| 0 <= i < s.len() && trigger_key(#[trigger] s[i]) == k;
        assert(trigger_key(r[s.len() - 1 - i]) == k);
    }
    assert forall|k: (i64, i64)| keys_of(r).contains(k) implies keys_of(s).contains(k) by {
        let i = choose|i: int| 0 <= i < r.len() && trigger_key(#[trigger] r[i]) == k;
        assert(trigger_key(s[s.len() - 1 - i]) == k);
    }
    assert(keys_of(r) =~= keys_of(s));
}

/// Without its last trigger, a list is one of the map without that trigger.
proof fn lemma_lists_shorter(s: Seq<PendingTrigger>, m: Map<(i64, i64), PendingTrigger>)
    requires
        lists(s, m),
        s.len() > 0,
    ensures
        m.contains_key(trigger_key(s.last())),
        lists(s.drop_last(), m.remove(trigger_key(s.last()))),
{
    let d = s.drop_last();
    let last = trigger_key(s.last());
    assert(d.push(s.last()) =~= s);
    lemma_keys_push(d, s.last());
    assert(keys_of(s).contains(last));
    assert(m.dom().contains(last));
    assert forall|i: int| 0 <= i < d.len() implies trigger_key(#[trigger] d[i]) != last by {
        assert(key_below(trigger_key(s[i]), trigger_key(s[s.len() - 1])));
    }
    assert(!keys_of(d).contains(last));
    assert(keys_of(d) =~= m.remove(last).dom());
}

proof fn lemma_list_is_unique(
    a: Seq<PendingTrigger>,
    b: Seq<PendingTrigger>,
    m: Map<(i64, i64), PendingTrigger>,
)
    requires
        lists(a, m),
        lists(b, m),
    ensures
        a == b,
    decreases a.len(),
{
    if a.len() == 0 {
        if b.len() > 0 {
            assert(keys_of(b).contains(trigger_key(b[0])));
            assert(keys_of(a).contains(trigger_key(b[0])));
        }
        assert(a =~= b);
    } else {
        let ka = trigger_key(a.last());
        assert(keys_of(a).contains(trigger_key(a[a.len() - 1])));
        assert(keys_of(b).contains(ka));
        let j = choose|j: int| 0 <= j < b.len() && trigger_key(#[trigger] b[j]) == ka;
        let kb = trigger_key(b[b.len() - 1]);
        assert(keys_of(b).contains(kb));
        assert(keys_of(a).contains(kb));
        let i = choose|i: int| 0 <= i < a.len() && trigger_key(#[trigger] a[i]) == kb;
        if j < b.len() - 1 {
            assert(key_below(trigger_key(b[j]), kb));
            if i < a.len() - 1 {
                assert(key_below(trigger_key(a[i]), trigger_key(a[a.len() - 1])));
            }
        }
        assert(m[trigger_key(b[j])] == b[j]);
        assert(m[trigger_key(a[a.len() - 1])] == a[a.len() - 1]);
        lemma_lists_shorter(a, m);
        lemma_lists_shorter(b, m);
        lemma_list_is_unique(a.drop_last(), b.drop_last(), m.remove(ka));
        assert(a =~= a.drop_last().push(a.last()));
        assert(b =~= b.drop_last().push(b.last()));
    }
}

/// A set of keys that is not empty has a highest one.
proof fn lemma_highest(s: Set<(i64, i64)>) -> (k: (i64, i64))
    requires
        s.finite(),
        s.len() > 0,
    ensures
        s.contains(k),
        forall|o: (i64, i64)| #[trigger] s.contains(o) ==> !key_below(k, o),
    decreases s.len(),
{
    let a = s.choose();
    assert(s.contains(a));
    let rest = s.remove(a);
    if rest.len() == 0 {
        assert forall|o: (i64, i64)| #[trigger] s.contains(o) implies !key_below(a, o) by {
            if o != a {
                assert(rest.contains(o));
            }
        }
        a
    } else {
        let b = lemma_highest(rest);
        let k = if key_below(b, a) {
            a
        } else {
            b
        };
        assert forall|o: (i64, i64)| #[trigger] s.contains(o) implies !key_below(k, o) by {
            if o != a {
                assert(rest.contains(o));
            }
        }
        k
    }
}

/// The triggers of a book can be put in order in exactly one way, which holds
/// each of them once.
pub proof fn law_triggers_have_one_order(
    m: Map<(i64, i64), PendingTrigger>,
    s: Seq<PendingTrigger>,
)
    requires
        keyed(m),
    ensures
        lists(in_order(m), m),
        in_order(m).len() == m.len(),
        lists(s, m) ==> s == in_order(m),
    decreases m.len(),
{
    if m.len() == 0 {
        assert(m.dom() =~= Set::<(i64, i64)>::empty());
        let e = Seq::<PendingTrigger>::empty();
        assert(keys_of(e) =~= m.dom());
        assert(lists(e, m));
        lemma_list_is_unique(in_order(m), e, m);
    } else {
        let k = lemma_highest(m.dom());
        let less = m.remove(k);
        assert(m.contains_key(k));
        assert forall|o: (i64, i64)| #[trigger] less.contains_key(o) implies trigger_key(less[o])
            == o by {
            assert(m.contains_key(o));
        }
        law_triggers_have_one_order(less, in_order(less));
        let d = in_order(less);
        let whole = d.push(m[k]);
        lemma_keys_push(d, m[k]);
        assert(keys_of(whole) =~= m.dom());
        assert forall|i: int| 0 <= i < d.len() implies key_below(
            trigger_key(#[trigger] d[i]),
            k,
        ) by {
            assert(keys_of(d).contains(trigger_key(d[i])));
            assert(less.dom().contains(trigger_key(d[i])));
            assert(m.dom().contains(trigger_key(d[i])));
        }
        assert forall|i: int| 0 <= i < whole.len() implies m[trigger_key(#[trigger] whole[i])]
            == whole[i] by {
            if i < d.len() {
                assert(less[trigger_key(d[i])] == d[i]);
            }
        }
        assert(ordered(whole)) by {
            assert forall|i: int, j: int| 0 <= i < j < whole.len() implies key_below(
                trigger_key(#[trigger] whole[i]),
                trigger_key(#[trigger] whole[j]),
            ) by {
                if j < d.len() {
                    assert(key_below(trigger_key(d[i]), trigger_key(d[j])));
                } else {
                    assert(key_below(trigger_key(d[i]), k));
                }
            }
        }
        assert(lists(whole, m));
        lemma_list_is_unique(in_order(m), whole, m);
    }
    if lists(s, m) {
        lemma_list_is_unique(s, in_order(m), m);
    }
}

/// What is left of `m` once the triggers `s` have been taken out of it.
spec fn taken(
    m: Map<(i64, i64), PendingTrigger>,
    s: Seq<PendingTrigger>,
    rest: Map<(i64, i64), PendingTrigger>,
) -> bool {
    &&& rest == m.remove_keys(keys_of(s))
    &&& forall|i: int|
        0 <= i < s.len() ==> m.contains_key(trigger_key(#[trigger] s[i])) && m[trigger_key(s[i])]
            == s[i]
}

proof fn lemma_taken_one(
    m: Map<(i64, i64), PendingTrigger>,
    s: Seq<PendingTrigger>,
    rest: Map<(i64, i64), PendingTrigger>,
    k: (i64, i64),
)
    requires
        keyed(m),
        taken(m, s, rest),
        rest.contains_key(k),
    ensures
        trigger_key(rest[k]) == k,
        taken(m, s.push(rest[k]), rest.remove(k)),
{
    assert(m.contains_key(k));
    assert(rest[k] == m[k]);
    lemma_keys_push(s, rest[k]);
    assert(rest.remove(k) =~= m.remove_keys(keys_of(s.push(rest[k]))));
}

proof fn lemma_taken_all(
    m: Map<(i64, i64), PendingTrigger>,
    s: Seq<PendingTrigger>,
    rest: Map<(i64, i64), PendingTrigger>,
    when: TriggerWhen,
    mark: int,
)
    requires
        taken(m, s, rest),
        forall|i: int|
            0 <= i < s.len() ==> reached(
                when,
                (#[trigger] s[i]).trigger_price_ticks as int,
                mark,
            ),
        forall|k: (i64, i64)| #[trigger]
            rest.contains_key(k) ==> !reached(when, k.0 as int, mark),
    ensures
        rest == kept(m, when, mark),
        keys_of(s) == fired(m, when, mark).dom(),
        forall|i: int|
            0 <= i < s.len() ==> fired(m, when, mark)[trigger_key(#[trigger] s[i])] == s[i],
{
    assert forall|k: (i64, i64)| m.contains_key(k) && reached(when, k.0 as int, mark) implies
        #[trigger] keys_of(s).contains(k) by {
        if !keys_of(s).contains(k) {
            assert(rest.contains_key(k));
        }
    }
    assert forall|k: (i64, i64)| #[trigger] keys_of(s).contains(k) implies m.contains_key(k)
        && reached(when, k.0 as int, mark) by {
        let i = choose|i: int| 0 <= i < s.len() && trigger_key(#[trigger] s[i]) == k;
        assert(m.contains_key(trigger_key(s[i])));
    }
    assert(keys_of(s) =~= fired(m, when, mark).dom());
    assert(rest =~= kept(m, when, mark));
    assert forall|i: int| 0 <= i < s.len() implies fired(m, when, mark)[trigger_key(
        #[trigger] s[i],
    )] == s[i] by {
        assert(keys_of(s).contains(trigger_key(s[i])));
    }
}

/// Takes out the triggers at or below the mark, lowest first.
fn take_up_to(m: &mut BTreeMap<(i64, i64), PendingTrigger>, mark: i64) -> (r: Vec<PendingTrigger>)
    requires
        keyed(old(m)@),
    ensures
        final(m)@ == kept(old(m)@, TriggerWhen::Rising, mark as int),
        lists(r@, fired(old(m)@, TriggerWhen::Rising, mark as int)),
{
    let ghost all = m@;
    let mut out: Vec<PendingTrigger> = Vec::new();
    proof {
        assert(keys_of(out@) =~= Set::<(i64, i64)>::empty());
        assert(m@ =~= all.remove_keys(keys_of(out@)));
    }
    loop
        invariant
            keyed(all),
            taken(all, out@, m@),
            ordered(out@),
            forall|i: int| 0 <= i < out@.len() ==> (#[trigger] out@[i]).trigger_price_ticks <= mark,
            forall|i: int, k: (i64, i64)|
                0 <= i < out@.len() && #[trigger] m@.contains_key(k) ==> key_below(
                    trigger_key(#[trigger] out@[i]),
                    k,
                ),
        ensures
            forall|k: (i64, i64)| #[trigger] m@.contains_key(k) ==> k.0 > mark,
        decreases m@.dom().len(),
    {
        let key = match lowest_key(m) {
            Some(k) => k,
            None => {
                break;
            },
        };
        if key.0 > mark {
            break;
        }
        let ghost rest = m@;
        let ghost before = out@;
        match m.remove(&key) {
            Some(t) => {
                proof {
                    lemma_taken_one(all, before, rest, key);
                    assert(m@ =~= rest.remove(key));
                }
                out.push(t);
                proof {
                    assert(ordered(out@)) by {
                        assert forall|i: int, j: int| 0 <= i < j < out@.len() implies key_below(
                            trigger_key(#[trigger] out@[i]),
                            trigger_key(#[trigger] out@[j]),
                        ) by {
                            if j < before.len() {
                                assert(key_below(trigger_key(before[i]), trigger_key(before[j])));
                            } else {
                                assert(rest.contains_key(key));
                                assert(key_below(trigger_key(before[i]), key));
                            }
                        }
                    }
                    assert forall|i: int, k: (i64, i64)|
                        0 <= i < out@.len() && #[trigger] m@.contains_key(k) implies key_below(
                        trigger_key(#[trigger] out@[i]),
                        k,
                    ) by {
                        assert(rest.contains_key(k));
                        if i < before.len() {
                            assert(key_below(trigger_key(before[i]), k));
                        }
                    }
                }
            },
            None => {
                break;
            },
        }
    }
    proof {
        lemma_taken_all(all, out@, m@, TriggerWhen::Rising, mark as int);
    }
    out
}

/// Takes out the triggers at or above the mark, highest first.
fn take_down_to(m: &mut BTreeMap<(i64, i64), PendingTrigger>, mark: i64) -> (r: Vec<
    PendingTrigger,
>)
    requires
        keyed(old(m)@),
    ensures
        final(m)@ == kept(old(m)@, TriggerWhen::Falling, mark as int),
        lists(r@.reverse(), fired(old(m)@, TriggerWhen::Falling, mark as int)),
{
    let ghost all = m@;
    let mut out: Vec<PendingTrigger> = Vec::new();
    proof {
        assert(keys_of(out@) =~= Set::<(i64, i64)>::empty());
        assert(m@ =~= all.remove_keys(keys_of(out@)));
    }
    loop
        invariant
            keyed(all),
            taken(all, out@, m@),
            ordered(out@.reverse()),
            forall|i: int| 0 <= i < out@.len() ==> (#[trigger] out@[i]).trigger_price_ticks >= mark,
            forall|i: int, k: (i64, i64)|
                0 <= i < out@.len() && #[trigger] m@.contains_key(k) ==> key_below(
                    k,
                    trigger_key(#[trigger] out@[i]),
                ),
        ensures
            forall|k: (i64, i64)| #[trigger] m@.contains_key(k) ==> k.0 < mark,
        decreases m@.dom().len(),
    {
        let key = match highest_key(m) {
            Some(k) => k,
            None => {
                break;
            },
        };
        if key.0 < mark {
            break;
        }
        let ghost rest = m@;
        let ghost before = out@;
        match m.remove(&key) {
            Some(t) => {
                proof {
                    lemma_taken_one(all, before, rest, key);
                    assert(m@ =~= rest.remove(key));
                }
                out.push(t);
                proof {
                    let back = before.reverse();
                    let now = out@.reverse();
                    assert(ordered(now)) by {
                        assert forall|i: int, j: int| 0 <= i < j < now.len() implies key_below(
                            trigger_key(#[trigger] now[i]),
                            trigger_key(#[trigger] now[j]),
                        ) by {
                            assert(now[j] == back[j - 1]);
                            if i > 0 {
                                assert(now[i] == back[i - 1]);
                                assert(key_below(trigger_key(back[i - 1]), trigger_key(back[j - 1])));
                            } else {
                                assert(rest.contains_key(key));
                                assert(now[j] == before[before.len() - j]);
                                assert(key_below(key, trigger_key(before[before.len() - j])));
                            }
                        }
                    }
                    assert forall|i: int, k: (i64, i64)|
                        0 <= i < out@.len() && #[trigger] m@.contains_key(k) implies key_below(
                        k,
                        trigger_key(#[trigger] out@[i]),
                    ) by {
                        assert(rest.contains_key(k));
                        if i < before.len() {
                            assert(key_below(k, trigger_key(before[i])));
                        }
                    }
                }
            },
            None => {
                break;
            },
        }
    }
    proof {
        lemma_taken_all(all, out@, m@, TriggerWhen::Falling, mark as int);
        lemma_keys_reverse(out@);
        let due = fired(all, TriggerWhen::Falling, mark as int);
        let back = out@.reverse();
        assert forall|i: int| 0 <= i < back.len() implies due[trigger_key(#[trigger] back[i])]
            == back[i] by {
            assert(back[i] == out@[out@.len() - 1 - i]);
        }
    }
    out
}

/// Appends `front` to `out`, last first.
fn append_backwards(out: &mut Vec<PendingTrigger>, front: &Vec<PendingTrigger>)
    ensures
        final(out)@ == old(out)@ + front@.reverse(),
{
    let ghost before = out@;
    let mut i: usize = front.len();
    while i > 0
        invariant
            i <= front@.len(),
            out@ == before + front@.skip(i as int).reverse(),
        decreases i,
    {
        i = i - 1;
        out.push(front[i]);
        proof {
            assert(front@.skip(i as int).reverse() =~= front@.skip(i + 1).reverse().push(
                front@[i as int],
            ));
        }
    }
    proof {
        assert(front@.skip(0) =~= front@);
    }
}

impl TriggerBook {
    /// The triggers armed in one direction, by price and id.
    pub closed spec fn armed(&self, when: TriggerWhen) -> Map<(i64, i64), PendingTrigger> {
        match when {
            TriggerWhen::Rising => self.rising@,
            TriggerWhen::Falling => self.falling@,
        }
    }

    /// Every trigger stands under its own price and id.
    pub open spec fn wf(&self) -> bool {
        keyed(self.armed(TriggerWhen::Rising)) && keyed(self.armed(TriggerWhen::Falling))
    }

    /// Arms a trigger, in place of any earlier one with the same price and id.
    pub fn insert(&mut self, when: TriggerWhen, t: PendingTrigger)
        requires
            old(self).wf(),
        ensures
            final(self).wf(),
            final(self).armed(when) == old(self).armed(when).insert(trigger_key(t), t),
            forall|other: TriggerWhen|
                other != when ==> #[trigger] final(self).armed(other) == old(self).armed(other),
    {
        proof {
            assert(old(self).armed(TriggerWhen::Rising) == self.rising@);
            assert(old(self).armed(TriggerWhen::Falling) == self.falling@);
        }
        let key = (t.trigger_price_ticks, t.id);
        let _earlier = match when {
            TriggerWhen::Rising => self.rising.insert(key, t),
            TriggerWhen::Falling => self.falling.insert(key, t),
        };
        proof {
            assert(self.armed(TriggerWhen::Rising) == self.rising@);
            assert(self.armed(TriggerWhen::Falling) == self.falling@);
        }
    }

    /// Takes a trigger out without firing it; tells whether it was armed.
    pub fn remove(&mut self, when: TriggerWhen, trigger_price_ticks: i64, id: i64) -> (r: bool)
        requires
            old(self).wf(),
        ensures
            final(self).wf(),
            r == old(self).armed(when).contains_key((trigger_price_ticks, id)),
            final(self).armed(when) == old(self).armed(when).remove((trigger_price_ticks, id)),
            forall|other: TriggerWhen|
                other != when ==> #[trigger] final(self).armed(other) == old(self).armed(other),
    {
        proof {
            assert(old(self).armed(TriggerWhen::Rising) == self.rising@);
            assert(old(self).armed(TriggerWhen::Falling) == self.falling@);
        }
        let key = (trigger_price_ticks, id);
        let gone = match when {
            TriggerWhen::Rising => self.rising.remove(&key),
            TriggerWhen::Falling => self.falling.remove(&key),
        };
        proof {
            assert(self.armed(TriggerWhen::Rising) == self.rising@);
            assert(self.armed(TriggerWhen::Falling) == self.falling@);
        }
        gone.is_some()
    }

    pub fn len(&self) -> (r: usize)
        requires
            self.armed(TriggerWhen::Rising).len() + self.armed(TriggerWhen::Falling).len()
                <= usize::MAX,
        ensures
            r == self.armed(TriggerWhen::Rising).len() + self.armed(TriggerWhen::Falling).len(),
    {
        proof {
            assert(self.armed(TriggerWhen::Rising) == self.rising@);
            assert(self.armed(TriggerWhen::Falling) == self.falling@);
        }
        self.rising.len() + self.falling.len()
    }

    pub fn is_empty(&self) -> (r: bool)
        ensures
            r == (self.armed(TriggerWhen::Rising).is_empty() && self.armed(
                TriggerWhen::Falling,
            ).is_empty()),
    {
        proof {
            assert(self.armed(TriggerWhen::Rising) == self.rising@);
            assert(self.armed(TriggerWhen::Falling) == self.falling@);
        }
        self.rising.is_empty() && self.falling.is_empty()
    }

    /// Takes out every trigger that the mark has reached, a touch included:
    /// first those armed from below, highest first, then those armed from
    /// above, lowest first. A mark that fires nothing costs two logarithmic
    /// look-ups.
    pub fn due(&mut self, mark_ticks: i64) -> (r: Vec<PendingTrigger>)
        requires
            old(self).wf(),
        ensures
            final(self).wf(),
            r@ == in_order(
                fired(old(self).armed(TriggerWhen::Rising), TriggerWhen::Rising, mark_ticks as int),
            ).reverse() + in_order(
                fired(
                    old(self).armed(TriggerWhen::Falling),
                    TriggerWhen::Falling,
                    mark_ticks as int,
                ),
            ),
            final(self).armed(TriggerWhen::Rising) == kept(
                old(self).armed(TriggerWhen::Rising),
                TriggerWhen::Rising,
                mark_ticks as int,
            ),
            final(self).armed(TriggerWhen::Falling) == kept(
                old(self).armed(TriggerWhen::Falling),
                TriggerWhen::Falling,
                mark_ticks as int,
            ),
    {
        let ghost up = self.rising@;
        let ghost down = self.falling@;
        proof {
            assert(old(self).armed(TriggerWhen::Rising) == up);
            assert(old(self).armed(TriggerWhen::Falling) == down);
        }
        let mut out: Vec<PendingTrigger> = Vec::new();
        let low = take_up_to(&mut self.rising, mark_ticks);
        append_backwards(&mut out, &low);
        let high = take_down_to(&mut self.falling, mark_ticks);
        append_backwards(&mut out, &high);
        proof {
            assert(self.armed(TriggerWhen::Rising) == self.rising@);
            assert(self.armed(TriggerWhen::Falling) == self.falling@);
            let due_up = fired(up, TriggerWhen::Rising, mark_ticks as int);
            let due_down = fired(down, TriggerWhen::Falling, mark_ticks as int);
            lemma_list_is_unique(low@, in_order(due_up), due_up);
            lemma_list_is_unique(high@.reverse(), in_order(due_down), due_down);
            law_due_fires_exactly_the_reached(up, TriggerWhen::Rising, mark_ticks as int);
            law_due_fires_exactly_the_reached(down, TriggerWhen::Falling, mark_ticks as int);
            assert(out@ =~= in_order(due_up).reverse() + in_order(due_down));
        }
        out
    }
}

impl Default for TriggerBook {
    fn default() -> (r: TriggerBook)
        ensures
            r.wf(),
            r.armed(TriggerWhen::Rising) == Map::<(i64, i64), PendingTrigger>::empty(),
            r.armed(TriggerWhen::Falling) == Map::<(i64, i64), PendingTrigger>::empty(),
    {
        let r = TriggerBook { rising: BTreeMap::new(), falling: BTreeMap::new() };
        proof {
            assert(r.armed(TriggerWhen::Rising) == r.rising@);
            assert(r.armed(TriggerWhen::Falling) == r.falling@);
        }
        r
    }
}

/// A mark fires a trigger exactly when it has reached it: what fires was armed
/// and is due, what stays was armed and is not, nothing is lost or doubled, and
/// the same mark fires nothing more. A trigger that is no longer armed never
/// fires.
pub proof fn law_due_fires_exactly_the_reached(
    m: Map<(i64, i64), PendingTrigger>,
    when: TriggerWhen,
    mark: int,
)
    requires
        keyed(m),
    ensures
        keyed(fired(m, when, mark)),
        keyed(kept(m, when, mark)),
        forall|k: (i64, i64)| #[trigger]
            fired(m, when, mark).contains_key(k) <==> m.contains_key(k) && reached(
                when,
                k.0 as int,
                mark,
            ),
        forall|k: (i64, i64)| #[trigger]
            kept(m, when, mark).contains_key(k) <==> m.contains_key(k) && !reached(
                when,
                k.0 as int,
                mark,
            ),
        fired(m, when, mark).union_prefer_right(kept(m, when, mark)) == m,
        in_order(fired(m, when, mark)).len() + kept(m, when, mark).len() == m.len(),
        in_order(fired(kept(m, when, mark), when, mark)).len() == 0,
{
    let f = fired(m, when, mark);
    let k = kept(m, when, mark);
    let again = fired(k, when, mark);
    vstd::set_lib::lemma_set_subset_finite(m.dom(), f.dom());
    vstd::set_lib::lemma_set_subset_finite(m.dom(), k.dom());
    assert(f.union_prefer_right(k) =~= m);
    assert(f.dom().union(k.dom()) =~= m.dom());
    assert(f.dom().disjoint(k.dom()));
    vstd::set_lib::lemma_set_disjoint_lens(f.dom(), k.dom());
    assert(again.dom() =~= Set::<(i64, i64)>::empty());
    law_triggers_have_one_order(f, in_order(f));
    law_triggers_have_one_order(again, in_order(again));
}

/// Whether a trigger marked as fired has to be entered again after a restart:
/// only where its order left no trace.
pub fn needs_reinjection(has_orders_row: bool, has_matching_event: bool) -> (r: bool)
    ensures
        r == !(has_orders_row || has_matching_event),
{
    !has_orders_row && !has_matching_event
}

/// The margin that the fired order has to reserve.
pub fn firing_margin_atoms(
    price_ticks: i64,
    qty_lots: i64,
    notional_scale: i64,
    leverage: u8,
) -> (r: i64)
    requires
        crate::risk::calc::notional_fits(
            price_ticks as int,
            qty_lots as int,
            notional_scale as int,
        ),
    ensures
        r == (if leverage == 0 {
            0
        } else {
            crate::money::trunc_div(
                crate::risk::calc::notional(
                    price_ticks as int,
                    qty_lots as int,
                    notional_scale as int,
                ) as i64 as int,
                leverage as int,
            )
        }),
{
    let notional = crate::risk::calc::calc_notional_atoms(price_ticks, qty_lots, notional_scale);
    crate::risk::calc::calc_initial_margin_atoms(notional, leverage)
}

/// The side of the position that an order of this side reduces.
pub fn closes_side(order_side: u8) -> (r: PositionSide)
    ensures
        r == (if order_side == 0 {
            PositionSide::Short
        } else {
            PositionSide::Long
        }),
{
    if order_side == 0 {
        PositionSide::Short
    } else {
        PositionSide::Long
    }
}

/// A rising trigger waits below its price and fires from it on up; a falling one
/// waits above and fires from it on down.
pub proof fn law_trigger_fires_from_its_price_on(trigger: int, mark: int, step: int)
    requires
        step >= 0,
    ensures
        reached(TriggerWhen::Rising, trigger, trigger),
        reached(TriggerWhen::Falling, trigger, trigger),
        !reached(TriggerWhen::Rising, trigger, trigger - 1 - step),
        !reached(TriggerWhen::Falling, trigger, trigger + 1 + step),
        reached(TriggerWhen::Rising, trigger, mark) ==> reached(
            TriggerWhen::Rising,
            trigger,
            mark + step,
        ),
        reached(TriggerWhen::Falling, trigger, mark) ==> reached(
            TriggerWhen::Falling,
            trigger,
            mark - step,
        ),
{
}

} // verus!
