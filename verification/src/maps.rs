//! The concurrent map of the `dashmap` crate, seen as the mathematical map of
//! its entries. Every operation that changes a map takes it by unique
//! reference, so what a shared reference shows never changes underneath it.
use crate::exchange_config::SymbolControl;
use crate::money::AccountBalance;
use crate::rate_limit::TokenBucket;
use crate::risk::types::{AccountRiskState, PositionRiskState};
use crate::text_map;
use crate::text_map::TextMap;
use dashmap::DashMap;
use std::collections::HashSet;
use vstd::prelude::*;

verus! {

/// `dashmap::DashMap`, whose contents are reached only through the functions below.
#[verifier::external_type_specification]
#[verifier::external_body]
#[verifier::reject_recursive_types(K)]
#[verifier::reject_recursive_types(V)]
#[verifier::reject_recursive_types(S)]
pub struct ExDashMap<K, V, S>(DashMap<K, V, S>);

/// A symbol of at most sixteen bytes, padded with zero bytes.
pub type Symbol = [u8; 16];

/// The entries of a map from users to margin accounts.
pub uninterp spec fn account_entries(m: DashMap<i64, AccountRiskState>) -> Map<
    i64,
    AccountRiskState,
>;

/// `DashMap::new` makes a map without entries.
#[verifier::external_body]
pub(crate) fn accounts_new() -> (r: DashMap<i64, AccountRiskState>)
    ensures
        (account_entries(r) == Map::<i64, AccountRiskState>::empty()),
{
    DashMap::new()
}

/// `DashMap::get` gives the value stored under the key, here copied out.
#[verifier::external_body]
pub(crate) fn accounts_get(m: &DashMap<i64, AccountRiskState>, key: i64) -> (r: Option<
    AccountRiskState,
>)
    ensures
        r == (if account_entries(*m).contains_key(key) {
            Some(account_entries(*m)[key])
        } else {
            None
        }),
{
    m.get(&key).map(|e| *e.value())
}

/// `DashMap::insert` stores the value under the key, in place of any earlier one.
#[verifier::external_body]
pub(crate) fn accounts_insert(
    m: &mut DashMap<i64, AccountRiskState>,
    key: i64,
    value: AccountRiskState,
)
    ensures
        account_entries(*final(m)) == account_entries(*old(m)).insert(key, value),
{
    m.insert(key, value);
}

/// `DashMap::len` counts the entries.
#[verifier::external_body]
pub(crate) fn accounts_len(m: &DashMap<i64, AccountRiskState>) -> (r: usize)
    ensures
        r == account_entries(*m).len(),
{
    m.len()
}

/// The entries of a map from users and symbols to positions.
pub uninterp spec fn position_entries(m: DashMap<(i64, Symbol), PositionRiskState>) -> Map<
    (i64, Symbol),
    PositionRiskState,
>;

/// `DashMap::new` makes a map without entries.
#[verifier::external_body]
pub(crate) fn positions_new() -> (r: DashMap<(i64, Symbol), PositionRiskState>)
    ensures
        (position_entries(r) == Map::<(i64, Symbol), PositionRiskState>::empty()),
{
    DashMap::new()
}

/// `DashMap::get` gives the value stored under the key, here copied out.
#[verifier::external_body]
pub(crate) fn positions_get(
    m: &DashMap<(i64, Symbol), PositionRiskState>,
    key: (i64, Symbol),
) -> (r: Option<PositionRiskState>)
    ensures
        r == (if position_entries(*m).contains_key(key) {
            Some(position_entries(*m)[key])
        } else {
            None
        }),
{
    m.get(&key).map(|e| *e.value())
}

/// `DashMap::insert` stores the value under the key, in place of any earlier one.
#[verifier::external_body]
pub(crate) fn positions_insert(
    m: &mut DashMap<(i64, Symbol), PositionRiskState>,
    key: (i64, Symbol),
    value: PositionRiskState,
)
    ensures
        position_entries(*final(m)) == position_entries(*old(m)).insert(key, value),
{
    m.insert(key, value);
}

/// `DashMap::remove` takes the entry of the key out of the map, where there is one.
#[verifier::external_body]
pub(crate) fn positions_remove(m: &mut DashMap<(i64, Symbol), PositionRiskState>, key: (i64, Symbol))
    ensures
        position_entries(*final(m)) == position_entries(*old(m)).remove(key),
{
    m.remove(&key);
}

/// `DashMap::iter` walks every entry once, in no particular order.
#[verifier::external_body]
pub(crate) fn positions_list(m: &DashMap<(i64, Symbol), PositionRiskState>) -> (r: Vec<
    ((i64, Symbol), PositionRiskState),
>)
    ensures
        forall|i: int|
            0 <= i < r@.len() ==> position_entries(*m).contains_key((#[trigger] r@[i]).0)
                && position_entries(*m)[r@[i].0] == r@[i].1,
        forall|k: (i64, Symbol)| #[trigger]
            position_entries(*m).contains_key(k) ==> exists|i: int|
                0 <= i < r@.len() && (#[trigger] r@[i]).0 == k,
        forall|i: int, j: int| 0 <= i < j < r@.len() ==> r@[i].0 != r@[j].0,
{
    m.iter().map(|e| (*e.key(), *e.value())).collect()
}

/// The entries of a map from symbols to numbers.
pub uninterp spec fn number_entries(m: DashMap<Symbol, i64>) -> Map<Symbol, i64>;

/// `DashMap::new` makes a map without entries.
#[verifier::external_body]
pub(crate) fn numbers_new() -> (r: DashMap<Symbol, i64>)
    ensures
        (number_entries(r) == Map::<Symbol, i64>::empty()),
{
    DashMap::new()
}

/// `DashMap::get` gives the value stored under the key, here copied out.
#[verifier::external_body]
pub(crate) fn numbers_get(m: &DashMap<Symbol, i64>, key: &Symbol) -> (r: Option<i64>)
    ensures
        r == (if number_entries(*m).contains_key(*key) {
            Some(number_entries(*m)[*key])
        } else {
            None
        }),
{
    m.get(key).map(|e| *e.value())
}

/// `DashMap::insert` stores the value under the key, in place of any earlier one.
#[verifier::external_body]
pub(crate) fn numbers_insert(m: &mut DashMap<Symbol, i64>, key: Symbol, value: i64)
    ensures
        number_entries(*final(m)) == number_entries(*old(m)).insert(key, value),
{
    m.insert(key, value);
}

/// The entries of a map from symbols to sets of users.
pub uninterp spec fn holder_entries(m: DashMap<Symbol, HashSet<i64>>) -> Map<Symbol, Set<i64>>;

/// `DashMap::new` makes a map without entries.
#[verifier::external_body]
pub(crate) fn holders_new() -> (r: DashMap<Symbol, HashSet<i64>>)
    ensures
        (holder_entries(r) == Map::<Symbol, Set<i64>>::empty()),
{
    DashMap::new()
}

/// `DashMap::remove` takes the entry of the key out of the map and hands its value over.
#[verifier::external_body]
pub(crate) fn holders_remove(m: &mut DashMap<Symbol, HashSet<i64>>, key: &Symbol) -> (r: Option<
    HashSet<i64>,
>)
    ensures
        r is Some <==> holder_entries(*old(m)).contains_key(*key),
        r is Some ==> (r->0)@ == holder_entries(*old(m))[*key],
        holder_entries(*final(m)) == holder_entries(*old(m)).remove(*key),
{
    m.remove(key).map(|e| e.1)
}

/// `DashMap::insert` stores the value under the key, in place of any earlier one.
#[verifier::external_body]
pub(crate) fn holders_insert(
    m: &mut DashMap<Symbol, HashSet<i64>>,
    key: Symbol,
    value: HashSet<i64>,
)
    ensures
        holder_entries(*final(m)) == holder_entries(*old(m)).insert(key, value@),
{
    m.insert(key, value);
}

/// The entries of a map from users and operation classes to token buckets.
pub uninterp spec fn bucket_entries(m: DashMap<(i64, u8), TokenBucket>) -> Map<
    (i64, u8),
    TokenBucket,
>;

/// `DashMap::new` makes a map without entries.
#[verifier::external_body]
pub(crate) fn buckets_new() -> (r: DashMap<(i64, u8), TokenBucket>)
    ensures
        (bucket_entries(r) == Map::<(i64, u8), TokenBucket>::empty()),
{
    DashMap::new()
}

/// `DashMap::get` gives the value stored under the key, here copied out.
#[verifier::external_body]
pub(crate) fn buckets_get(m: &DashMap<(i64, u8), TokenBucket>, key: (i64, u8)) -> (r: Option<
    TokenBucket,
>)
    ensures
        r == (if bucket_entries(*m).contains_key(key) {
            Some(bucket_entries(*m)[key])
        } else {
            None
        }),
{
    m.get(&key).map(|e| *e.value())
}

/// `DashMap::insert` stores the value under the key, in place of any earlier one.
#[verifier::external_body]
pub(crate) fn buckets_insert(
    m: &mut DashMap<(i64, u8), TokenBucket>,
    key: (i64, u8),
    value: TokenBucket,
)
    ensures
        bucket_entries(*final(m)) == bucket_entries(*old(m)).insert(key, value),
{
    m.insert(key, value);
}

/// `DashMap::iter` walks every entry once, in no particular order.
#[verifier::external_body]
pub(crate) fn buckets_list(m: &DashMap<(i64, u8), TokenBucket>) -> (r: Vec<
    ((i64, u8), TokenBucket),
>)
    ensures
        forall|i: int|
            0 <= i < r@.len() ==> bucket_entries(*m).contains_key((#[trigger] r@[i]).0)
                && bucket_entries(*m)[r@[i].0] == r@[i].1,
        forall|k: (i64, u8)| #[trigger]
            bucket_entries(*m).contains_key(k) ==> exists|i: int|
                0 <= i < r@.len() && (#[trigger] r@[i]).0 == k,
        forall|i: int, j: int| 0 <= i < j < r@.len() ==> r@[i].0 != r@[j].0,
{
    m.iter().map(|e| (*e.key(), *e.value())).collect()
}

/// The entries of a map from symbols to prices and the times they were stored.
pub uninterp spec fn quote_entries(m: DashMap<Symbol, (i64, i64)>) -> Map<Symbol, (i64, i64)>;

/// `DashMap::new` makes a map without entries.
#[verifier::external_body]
pub(crate) fn quotes_new() -> (r: DashMap<Symbol, (i64, i64)>)
    ensures
        (quote_entries(r) == Map::<Symbol, (i64, i64)>::empty()),
{
    DashMap::new()
}

/// `DashMap::get` gives the value stored under the key, here copied out.
#[verifier::external_body]
pub(crate) fn quotes_get(m: &DashMap<Symbol, (i64, i64)>, key: &Symbol) -> (r: Option<(i64, i64)>)
    ensures
        r == (if quote_entries(*m).contains_key(*key) {
            Some(quote_entries(*m)[*key])
        } else {
            None
        }),
{
    m.get(key).map(|e| *e.value())
}

/// `DashMap::insert` stores the value under the key, in place of any earlier one.
#[verifier::external_body]
pub(crate) fn quotes_insert(m: &mut DashMap<Symbol, (i64, i64)>, key: Symbol, value: (i64, i64))
    ensures
        quote_entries(*final(m)) == quote_entries(*old(m)).insert(key, value),
{
    m.insert(key, value);
}

/// The entries of a map from symbol names to their controls.
pub uninterp spec fn control_entries(m: DashMap<String, SymbolControl>) -> Map<
    Seq<char>,
    SymbolControl,
>;

/// `DashMap::new` makes a map without entries.
#[verifier::external_body]
pub(crate) fn controls_new() -> (r: DashMap<String, SymbolControl>)
    ensures
        (control_entries(r) == Map::<Seq<char>, SymbolControl>::empty()),
{
    DashMap::new()
}

/// `DashMap::get` gives the value stored under the name, here copied out.
#[verifier::external_body]
pub(crate) fn controls_get(m: &DashMap<String, SymbolControl>, key: &str) -> (r: Option<
    SymbolControl,
>)
    ensures
        r == (if control_entries(*m).contains_key(key@) {
            Some(control_entries(*m)[key@])
        } else {
            None
        }),
{
    m.get(key).map(|e| *e.value())
}

/// `DashMap::insert` stores the value under the name, in place of any earlier one.
#[verifier::external_body]
pub(crate) fn controls_insert(
    m: &mut DashMap<String, SymbolControl>,
    key: String,
    value: SymbolControl,
)
    ensures
        control_entries(*final(m)) == control_entries(*old(m)).insert(key@, value),
{
    m.insert(key, value);
}

/// `DashMap::iter` walks every entry once, in no particular order.
#[verifier::external_body]
pub(crate) fn controls_list(m: &DashMap<String, SymbolControl>) -> (r: Vec<
    (String, SymbolControl),
>)
    ensures
        forall|i: int|
            0 <= i < r@.len() ==> control_entries(*m).contains_key((#[trigger] r@[i]).0@)
                && control_entries(*m)[r@[i].0@] == r@[i].1,
        forall|k: Seq<char>| #[trigger]
            control_entries(*m).contains_key(k) ==> exists|i: int|
                0 <= i < r@.len() && (#[trigger] r@[i]).0@ == k,
        forall|i: int, j: int| 0 <= i < j < r@.len() ==> r@[i].0@ != r@[j].0@,
{
    m.iter().map(|e| (e.key().clone(), *e.value())).collect()
}

/// The entries of a map from users to their balances by asset.
pub uninterp spec fn balance_entries(m: DashMap<i64, TextMap<AccountBalance>>) -> Map<
    i64,
    TextMap<AccountBalance>,
>;

/// `DashMap::new` makes a map without entries.
#[verifier::external_body]
pub(crate) fn balances_new() -> (r: DashMap<i64, TextMap<AccountBalance>>)
    ensures
        (balance_entries(r) == Map::<i64, TextMap<AccountBalance>>::empty()),
{
    DashMap::new()
}

/// `DashMap::contains_key` tells whether there is an entry under the key.
#[verifier::external_body]
pub(crate) fn balances_has(m: &DashMap<i64, TextMap<AccountBalance>>, key: i64) -> (r: bool)
    ensures
        r == balance_entries(*m).contains_key(key),
{
    m.contains_key(&key)
}

/// `DashMap::view` hands the value under the key to a function, here the one
/// that looks an asset up, and gives what it returns; nothing without an entry.
#[verifier::external_body]
pub(crate) fn balances_get(
    m: &DashMap<i64, TextMap<AccountBalance>>,
    key: i64,
    asset: &str,
) -> (r: Option<Option<AccountBalance>>)
    requires
        balance_entries(*m).contains_key(key) ==> balance_entries(*m)[key].wf(),
    ensures
        r == (if balance_entries(*m).contains_key(key) {
            let assets = balance_entries(*m)[key].view();
            if assets.contains_key(asset@) {
                Some(Some(assets[asset@]))
            } else {
                Some(None)
            }
        } else {
            None
        }),
{
    m.view(&key, |_, assets| assets.get(asset))
}

/// `DashMap::view` once more, with the function that lists the assets.
#[verifier::external_body]
pub(crate) fn balances_list(m: &DashMap<i64, TextMap<AccountBalance>>, key: i64) -> (r: Option<
    Vec<(String, AccountBalance)>,
>)
    requires
        balance_entries(*m).contains_key(key) ==> balance_entries(*m)[key].wf(),
    ensures
        match r {
            Some(list) => {
                &&& balance_entries(*m).contains_key(key)
                &&& text_map::names_distinct(list@)
                &&& text_map::by_name(list@) == balance_entries(*m)[key].view()
            },
            None => !balance_entries(*m).contains_key(key),
        },
{
    m.view(&key, |_, assets| assets.to_vec())
}

/// `DashMap::remove` takes the entry of the key out of the map and hands its value over.
#[verifier::external_body]
pub(crate) fn balances_remove(m: &mut DashMap<i64, TextMap<AccountBalance>>, key: i64) -> (r: Option<
    TextMap<AccountBalance>,
>)
    ensures
        r == (if balance_entries(*old(m)).contains_key(key) {
            Some(balance_entries(*old(m))[key])
        } else {
            None
        }),
        balance_entries(*final(m)) == balance_entries(*old(m)).remove(key),
{
    m.remove(&key).map(|e| e.1)
}

/// `DashMap::insert` stores the value under the key, in place of any earlier one.
#[verifier::external_body]
pub(crate) fn balances_insert(
    m: &mut DashMap<i64, TextMap<AccountBalance>>,
    key: i64,
    value: TextMap<AccountBalance>,
)
    ensures
        balance_entries(*final(m)) == balance_entries(*old(m)).insert(key, value),
{
    m.insert(key, value);
}

} // verus!
