//! Accounts kept in memory: balances and positions, what open orders hold of
//! them, and what fills do to them. Amounts are in atoms.
use crate::money;
use crate::money::AmountAtoms;
use crate::text;
use crate::text_map;
use crate::text_map::TextMap;
use std::collections::hash_map::Entry;
use std::collections::HashMap;
use vstd::prelude::*;

verus! {

pub type AccountId = u64;

/// What a client holds of a symbol.
#[derive(Clone, Copy, Debug, PartialEq, Eq, Structural)]
pub struct Position {
    pub quantity: AmountAtoms,
    /// What open orders hold of it.
    pub frozen: AmountAtoms,
}

pub open spec fn floor_zero(v: int) -> int {
    if v > 0 {
        v
    } else {
        0
    }
}

impl Position {
    /// Nothing held.
    pub open spec fn none() -> Position {
        Position { quantity: AmountAtoms(0), frozen: AmountAtoms(0) }
    }

    /// What is not held by open orders.
    pub open spec fn free(self) -> int {
        floor_zero(self.quantity.0 - self.frozen.0)
    }

    pub open spec fn in_range(self) -> bool {
        money::fits_i64(self.quantity.0 - self.frozen.0)
    }

    pub fn available(&self) -> (r: AmountAtoms)
        requires
            self.in_range(),
        ensures
            r.0 == self.free(),
    {
        let free: i64 = self.quantity.atoms() - self.frozen.atoms();
        AmountAtoms::from_atoms(
            if free > 0 {
                free
            } else {
                0
            },
        )
    }

    /// Holds a part for an order, where enough of it is free.
    pub fn freeze(&mut self, qty: AmountAtoms) -> (r: bool)
        requires
            old(self).in_range(),
            old(self).free() >= qty.0 ==> money::fits_i64(old(self).frozen.0 + qty.0),
        ensures
            r == (old(self).free() >= qty.0),
            final(self).quantity == old(self).quantity,
            final(self).frozen.0 == (if r {
                old(self).frozen.0 + qty.0
            } else {
                old(self).frozen.0 as int
            }),
    {
        if self.available().atoms() >= qty.atoms() {
            self.frozen = AmountAtoms::from_atoms(self.frozen.atoms() + qty.atoms());
            true
        } else {
            false
        }
    }

    /// Lets go of a part, never below nothing.
    pub fn unfreeze(&mut self, qty: AmountAtoms)
        requires
            money::fits_i64(old(self).frozen.0 - qty.0),
        ensures
            final(self).quantity == old(self).quantity,
            final(self).frozen.0 == floor_zero(old(self).frozen.0 - qty.0),
    {
        let left: i64 = self.frozen.atoms() - qty.atoms();
        self.frozen = AmountAtoms::from_atoms(
            if left > 0 {
                left
            } else {
                0
            },
        );
    }

    /// Sells a part that was held for the order.
    pub fn execute_sell(&mut self, qty: AmountAtoms) -> (r: bool)
        requires
            old(self).frozen.0 >= qty.0 ==> money::fits_i64(old(self).quantity.0 - qty.0)
                && money::fits_i64(old(self).frozen.0 - qty.0),
        ensures
            r == (old(self).frozen.0 >= qty.0),
            final(self).quantity.0 == (if r {
                old(self).quantity.0 - qty.0
            } else {
                old(self).quantity.0 as int
            }),
            final(self).frozen.0 == (if r {
                old(self).frozen.0 - qty.0
            } else {
                old(self).frozen.0 as int
            }),
    {
        if self.frozen.atoms() >= qty.atoms() {
            self.quantity = AmountAtoms::from_atoms(self.quantity.atoms() - qty.atoms());
            self.frozen = AmountAtoms::from_atoms(self.frozen.atoms() - qty.atoms());
            true
        } else {
            false
        }
    }

    /// Adds what was bought.
    pub fn execute_buy(&mut self, qty: AmountAtoms)
        requires
            money::fits_i64(old(self).quantity.0 + qty.0),
        ensures
            final(self).quantity.0 == old(self).quantity.0 + qty.0,
            final(self).frozen == old(self).frozen,
    {
        self.quantity = AmountAtoms::from_atoms(self.quantity.atoms() + qty.atoms());
    }
}

/// A client's account.
pub struct Account {
    id: AccountId,
    balance: AmountAtoms,
    frozen_balance: AmountAtoms,
    positions: TextMap<Position>,
}

#[verifier::ext_equal]
pub struct AccountView {
    pub id: AccountId,
    pub balance: int,
    pub frozen: int,
    pub positions: Map<Seq<char>, Position>,
}

impl AccountView {
    /// What open orders do not hold of the balance.
    pub open spec fn free(self) -> int {
        floor_zero(self.balance - self.frozen)
    }

    pub open spec fn position(self, symbol: Seq<char>) -> Position {
        if self.positions.contains_key(symbol) {
            self.positions[symbol]
        } else {
            Position::none()
        }
    }

    pub open spec fn with_position(self, symbol: Seq<char>, p: Position) -> AccountView {
        AccountView { positions: self.positions.insert(symbol, p), ..self }
    }

    pub open spec fn in_range(self) -> bool {
        &&& money::fits_i64(self.balance)
        &&& money::fits_i64(self.frozen)
        &&& money::fits_i64(self.balance - self.frozen)
        &&& forall|s: Seq<char>| #[trigger]
            self.positions.contains_key(s) ==> self.positions[s].in_range()
    }
}

/// What the positions of a list are worth, as far as prices are known.
pub open spec fn worth(list: Seq<(String, Position)>, prices: Map<Seq<char>, AmountAtoms>) -> int
    decreases list.len(),
{
    if list.len() == 0 {
        0
    } else {
        let (symbol, p) = list.last();
        worth(list.drop_last(), prices) + (if prices.contains_key(symbol@) {
            money::scaled_product(p.quantity.0 as int, prices[symbol@].0 as int)
        } else {
            0
        })
    }
}

proof fn lemma_with_position(a: AccountView, symbol: Seq<char>, p: Position)
    requires
        a.in_range(),
    ensures
        p.in_range() ==> a.with_position(symbol, p).in_range(),
{
    let b = a.with_position(symbol, p);
    assert forall|s: Seq<char>|
        p.in_range() && #[trigger] b.positions.contains_key(s) implies b.positions[s].in_range() by {
        if s != symbol {
            assert(a.positions.contains_key(s));
        }
    }
}

impl Account {
    pub closed spec fn view(&self) -> AccountView {
        AccountView {
            id: self.id,
            balance: self.balance.0 as int,
            frozen: self.frozen_balance.0 as int,
            positions: self.positions.view(),
        }
    }

    /// The positions in the order in which they came.
    pub closed spec fn list(&self) -> Seq<(String, Position)> {
        self.positions.list()
    }

    pub closed spec fn wf(&self) -> bool {
        self.positions.wf() && self.view().in_range()
    }

    pub fn new(id: AccountId, initial_balance: AmountAtoms) -> (r: Account)
        ensures
            r.wf(),
            r.view() == (AccountView {
                id,
                balance: initial_balance.0 as int,
                frozen: 0,
                positions: Map::empty(),
            }),
            r.list().len() == 0,
    {
        Account {
            id,
            balance: initial_balance,
            frozen_balance: AmountAtoms::zero(),
            positions: TextMap::new(),
        }
    }

    pub fn id(&self) -> (r: AccountId)
        ensures
            r == self.view().id,
    {
        self.id
    }

    pub fn balance(&self) -> (r: AmountAtoms)
        ensures
            r.0 == self.view().balance,
    {
        self.balance
    }

    pub fn frozen_balance(&self) -> (r: AmountAtoms)
        ensures
            r.0 == self.view().frozen,
    {
        self.frozen_balance
    }

    pub fn available_balance(&self) -> (r: AmountAtoms)
        requires
            self.wf(),
        ensures
            r.0 == self.view().free(),
    {
        let free: i64 = self.balance.atoms() - self.frozen_balance.atoms();
        AmountAtoms::from_atoms(
            if free > 0 {
                free
            } else {
                0
            },
        )
    }

    /// What is held of a symbol, where a position is known.
    pub fn get_position(&self, symbol: &str) -> (r: Option<Position>)
        requires
            self.wf(),
        ensures
            r == (if self.view().positions.contains_key(symbol@) {
                Some(self.view().positions[symbol@])
            } else {
                None
            }),
    {
        self.positions.get(symbol)
    }

    /// The position in a symbol, which starts empty.
    pub fn get_position_mut(&mut self, symbol: &str) -> (r: &mut Position)
        requires
            old(self).wf(),
        ensures
            *r == old(self).view().position(symbol@),
            final(self).view() == old(self).view().with_position(symbol@, *final(r)),
            final(r).in_range() ==> final(self).wf(),
    {
        let ghost before = self.view();
        let r = self.positions.entry(
            symbol,
            Position { quantity: AmountAtoms::zero(), frozen: AmountAtoms::zero() },
        );
        proof {
            lemma_with_position(before, symbol@, *final(r));
        }
        r
    }

    /// The free balance and what the positions are worth at the market; `None`
    /// where the sum does not fit. The list that is summed holds each position
    /// once.
    pub fn total_assets(&self, market_prices: &TextMap<AmountAtoms>) -> (r: Option<AmountAtoms>)
        requires
            self.wf(),
            market_prices.wf(),
        ensures
            text_map::names_distinct(self.list()),
            text_map::by_name(self.list()) == self.view().positions,
            ({
                let total = self.view().free() + worth(self.list(), market_prices.view());
                match r {
                    Some(t) => t.0 == total,
                    None => !money::fits_i64(total) || !worth_in_steps(
                        self.list(),
                        market_prices.view(),
                    ),
                }
            }),
    {
        let mut total: i128 = 0;
        let mut i: usize = 0;
        let n = self.positions.len();
        proof {
            assert(self.list().take(0) =~= seq![]);
        }
        while i < n
            invariant
                i <= n,
                n == self.list().len(),
                self.wf(),
                market_prices.wf(),
                total == worth(self.list().take(i as int), market_prices.view()),
            decreases n - i,
        {
            let (symbol, p) = self.positions.entry_at(i);
            proof {
                let seen = self.list().take(i + 1);
                assert(seen.drop_last() =~= self.list().take(i as int));
            }
            if let Some(price) = market_prices.get(symbol) {
                let value = money::scale_product(p.quantity.atoms(), price.atoms());
                match total.checked_add(value) {
                    Some(t) => {
                        total = t;
                    },
                    None => {
                        proof {
                            let k = i + 1;
                            assert(!fits_i128(
                                worth(self.list().take(k), market_prices.view()),
                            ));
                        }
                        return None;
                    },
                }
            }
            i = i + 1;
        }
        proof {
            assert(self.list().take(n as int) =~= self.list());
        }
        match total.checked_add(self.available_balance().atoms() as i128) {
            Some(t) => if t > i64::MAX as i128 || t < i64::MIN as i128 {
                None
            } else {
                Some(AmountAtoms::from_atoms(t as i64))
            },
            None => None,
        }
    }
}

pub open spec fn fits_i128(v: int) -> bool {
    i128::MIN <= v <= i128::MAX
}

/// Whether no partial sum of the positions' worth leaves 128-bit arithmetic.
pub open spec fn worth_in_steps(
    list: Seq<(String, Position)>,
    prices: Map<Seq<char>, AmountAtoms>,
) -> bool {
    forall|k: int| 0 <= k <= list.len() ==> fits_i128(worth(#[trigger] list.take(k), prices))
}

proof fn lemma_worth_without(
    list: Seq<(String, Position)>,
    prices: Map<Seq<char>, AmountAtoms>,
    i: int,
)
    requires
        0 <= i < list.len(),
    ensures
        worth(list, prices) == worth(list.remove(i), prices) + worth(seq![list[i]], prices),
    decreases list.len(),
{
    reveal_with_fuel(worth, 2);
    let one = seq![list[i]];
    assert(one.drop_last() =~= seq![]);
    if i == list.len() - 1 {
        assert(list.remove(i) =~= list.drop_last());
    } else {
        lemma_worth_without(list.drop_last(), prices, i);
        assert(list.remove(i).drop_last() =~= list.drop_last().remove(i));
        assert(list.remove(i).last() == list.last());
    }
}

/// What positions are worth does not depend on the order in which they are
/// listed: two lists of the same positions are worth the same.
pub proof fn law_worth_is_of_the_positions(
    a: Seq<(String, Position)>,
    b: Seq<(String, Position)>,
    prices: Map<Seq<char>, AmountAtoms>,
)
    requires
        text_map::names_distinct(a),
        text_map::names_distinct(b),
        text_map::by_name(a) == text_map::by_name(b),
    ensures
        worth(a, prices) == worth(b, prices),
    decreases a.len(),
{
    if a.len() == 0 {
        if b.len() > 0 {
            text_map::lemma_by_name(b, 0);
        }
    } else {
        let n = a.len() - 1;
        let name = a[n].0@;
        text_map::lemma_by_name(a, n);
        let i = choose|i: int| 0 <= i < b.len() && (#[trigger] b[i]).0@ == name;
        text_map::lemma_by_name(b, i);
        let rest_a = a.remove(n);
        let rest_b = b.remove(i);
        lemma_worth_without(a, prices, n);
        lemma_worth_without(b, prices, i);
        reveal_with_fuel(worth, 2);
        assert(seq![a[n]].drop_last() =~= seq![]);
        assert(seq![b[i]].drop_last() =~= seq![]);
        text_map::lemma_without(a, n);
        text_map::lemma_without(b, i);
        law_worth_is_of_the_positions(rest_a, rest_b, prices);
    }
}

/// Accounts, each under an id of its own.
pub struct AccountManager {
    accounts: HashMap<AccountId, Account>,
}

/// The account of an id.
pub open spec fn find(m: Map<AccountId, AccountView>, id: AccountId) -> Option<AccountView> {
    if m.contains_key(id) {
        Some(m[id])
    } else {
        None
    }
}

pub open spec fn account_text(id: AccountId, rest: Seq<char>) -> Seq<char> {
    "Account "@ + text::nat_text(id as nat) + rest
}

pub open spec fn unknown(id: AccountId) -> Seq<char> {
    account_text(id, " not found"@)
}

pub open spec fn failure<T>(r: Result<T, String>) -> Option<Seq<char>> {
    match r {
        Ok(_) => None,
        Err(e) => Some(e@),
    }
}

/// The cost of a quantity at a price.
pub open spec fn cost_of(price: AmountAtoms, quantity: AmountAtoms) -> int {
    money::scaled_product(price.0 as int, quantity.0 as int)
}

/// The account after the cost of a buy is held, where enough is free.
pub open spec fn buy_frozen(a: AccountView, cost: int) -> Result<AccountView, Seq<char>> {
    if a.free() < cost {
        Err("Insufficient balance to freeze"@)
    } else {
        Ok(AccountView { frozen: a.frozen + cost, ..a })
    }
}

/// The account after a buy was filled out of what was held for it.
pub open spec fn bought(
    a: AccountView,
    symbol: Seq<char>,
    cost: int,
    quantity: AmountAtoms,
) -> Result<AccountView, Seq<char>> {
    if a.frozen < cost {
        Err("Frozen balance not enough"@)
    } else {
        let p = a.position(symbol);
        Ok(
            AccountView { balance: a.balance - cost, frozen: a.frozen - cost, ..a }.with_position(
                symbol,
                Position { quantity: AmountAtoms((p.quantity.0 + quantity.0) as i64), ..p },
            ),
        )
    }
}

/// The account after a cancelled buy let go of what was held for it.
pub open spec fn buy_cancelled(a: AccountView, cost: int) -> AccountView {
    AccountView { frozen: floor_zero(a.frozen - cost), ..a }
}

/// What a position looks like once a part of it is held; unchanged where not
/// enough of it is free.
pub open spec fn held(p: Position, quantity: AmountAtoms) -> Position {
    if p.free() >= quantity.0 {
        Position { frozen: AmountAtoms((p.frozen.0 + quantity.0) as i64), ..p }
    } else {
        p
    }
}

/// What a position looks like once a held part of it is sold; unchanged where
/// not enough of it was held.
pub open spec fn sold(p: Position, quantity: AmountAtoms) -> Position {
    if p.frozen.0 >= quantity.0 {
        Position {
            quantity: AmountAtoms((p.quantity.0 - quantity.0) as i64),
            frozen: AmountAtoms((p.frozen.0 - quantity.0) as i64),
        }
    } else {
        p
    }
}

impl AccountManager {
    pub closed spec fn view(&self) -> Map<AccountId, AccountView> {
        account_views(self.accounts@)
    }

    /// Every account stands under its own id.
    pub closed spec fn wf(&self) -> bool {
        forall|id: AccountId| #[trigger]
            self.accounts@.contains_key(id) ==> self.accounts@[id].wf()
                && self.accounts@[id].view().id == id
    }

    pub fn new() -> (r: AccountManager)
        ensures
            r.wf(),
            r.view() == Map::<AccountId, AccountView>::empty(),
    {
        let r = AccountManager { accounts: HashMap::new() };
        proof {
            assert(r.view() =~= Map::<AccountId, AccountView>::empty());
        }
        r
    }

    /// Opens an account, unless the id is taken.
    pub fn create_account(&mut self, id: AccountId, initial_balance: AmountAtoms) -> (r: Result<
        (),
        String,
    >)
        requires
            old(self).wf(),
        ensures
            final(self).wf(),
            failure(r) == (if find(old(self).view(), id) is Some {
                Some(account_text(id, " already exists"@))
            } else {
                None
            }),
            final(self).view() == (if r is Ok {
                old(self).view().insert(
                    id,
                    AccountView {
                        id,
                        balance: initial_balance.0 as int,
                        frozen: 0,
                        positions: Map::empty(),
                    },
                )
            } else {
                old(self).view()
            }),
    {
        broadcast use vstd::std_specs::hash::group_hash_axioms;

        if self.accounts.contains_key(&id) {
            return Err(account_message(id, " already exists"));
        }
        let account = Account::new(id, initial_balance);
        self.accounts.insert(id, account);
        proof {
            assert(self.view() =~= old(self).view().insert(id, account.view()));
        }
        Ok(())
    }

    pub fn get_account(&self, id: AccountId) -> (r: Result<&Account, String>)
        requires
            self.wf(),
        ensures
            match (r, find(self.view(), id)) {
                (Ok(a), Some(v)) => a.wf() && a.view() == v,
                (Err(e), None) => e@ == unknown(id),
                _ => false,
            },
    {
        broadcast use vstd::std_specs::hash::group_hash_axioms;

        match self.accounts.get(&id) {
            Some(a) => Ok(a),
            None => Err(account_message(id, " not found")),
        }
    }

    /// The account of an id, to be changed. Its id has to stay.
    pub fn get_account_mut(&mut self, id: AccountId) -> (r: Result<&mut Account, String>)
        requires
            old(self).wf(),
        ensures
            match (r, find(old(self).view(), id)) {
                (Ok(a), Some(v)) => {
                    &&& a.wf()
                    &&& a.view() == v
                    &&& v.id == id
                    &&& final(self).view() == old(self).view().insert(id, final(a).view())
                    &&& final(a).wf() && final(a).view().id == id ==> final(self).wf()
                },
                (Err(e), None) => e@ == unknown(id) && final(self).wf() && final(self).view()
                    == old(self).view(),
                _ => false,
            },
    {
        broadcast use vstd::std_specs::hash::group_hash_axioms;

        let ghost before = self.accounts@;
        match self.accounts.entry(id) {
            Entry::Occupied(entry) => {
                let a = entry.into_mut();
                proof {
                    assert(account_views(before.insert(id, *final(a))) =~= account_views(
                        before,
                    ).insert(id, final(a).view()));
                }
                Ok(a)
            },
            Entry::Vacant(_) => {
                proof {
                    assert(before.remove(id) =~= before);
                }
                Err(account_message(id, " not found"))
            },
        }
    }
}

spec fn account_views(m: Map<AccountId, Account>) -> Map<AccountId, AccountView> {
    m.map_values(|a: Account| a.view())
}

fn account_message(id: AccountId, rest: &str) -> (r: String)
    ensures
        r@ == account_text(id, rest@),
{
    let mut out = text::owned("Account ");
    text::append_nat(&mut out, id as u128);
    out.append(rest);
    out
}

impl Account {
    fn hold_cost(&mut self, cost: i128) -> (r: Result<(), String>)
        requires
            old(self).wf(),
            buy_frozen(old(self).view(), cost as int) matches Ok(b) ==> b.in_range(),
        ensures
            final(self).wf(),
            match buy_frozen(old(self).view(), cost as int) {
                Ok(b) => r is Ok && final(self).view() == b,
                Err(e) => failure(r) == Some(e) && final(self).view() == old(self).view(),
            },
    {
        if (self.available_balance().atoms() as i128) < cost {
            return Err(text::owned("Insufficient balance to freeze"));
        }
        let frozen = self.frozen_balance.atoms() as i128 + cost;
        self.frozen_balance = AmountAtoms::from_atoms(frozen as i64);
        Ok(())
    }

    fn pay_and_add(&mut self, symbol: &str, cost: i128, quantity: AmountAtoms) -> (r: Result<
        (),
        String,
    >)
        requires
            old(self).wf(),
            bought(old(self).view(), symbol@, cost as int, quantity) matches Ok(b) ==> {
                &&& b.in_range()
                &&& money::fits_i64(
                    old(self).view().position(symbol@).quantity.0 + quantity.0,
                )
            },
        ensures
            final(self).wf(),
            match bought(old(self).view(), symbol@, cost as int, quantity) {
                Ok(b) => r is Ok && final(self).view() == b,
                Err(e) => failure(r) == Some(e) && final(self).view() == old(self).view(),
            },
    {
        if (self.frozen_balance.atoms() as i128) < cost {
            return Err(text::owned("Frozen balance not enough"));
        }
        let ghost goal = bought(self.view(), symbol@, cost as int, quantity)->Ok_0;
        proof {
            assert(goal.positions.contains_key(symbol@));
        }
        let frozen = self.frozen_balance.atoms() as i128 - cost;
        let balance = self.balance.atoms() as i128 - cost;
        self.frozen_balance = AmountAtoms::from_atoms(frozen as i64);
        self.balance = AmountAtoms::from_atoms(balance as i64);
        let p = self.get_position_mut(symbol);
        p.execute_buy(quantity);
        Ok(())
    }

    fn let_go(&mut self, cost: i128)
        requires
            old(self).wf(),
            buy_cancelled(old(self).view(), cost as int).in_range(),
            money::fits_i64(cost as int),
        ensures
            final(self).wf(),
            final(self).view() == buy_cancelled(old(self).view(), cost as int),
    {
        let left = self.frozen_balance.atoms() as i128 - cost;
        self.frozen_balance = AmountAtoms::from_atoms(
            if left > 0 {
                left as i64
            } else {
                0
            },
        );
    }
}

impl AccountManager {
    /// Checks that a buy can be paid for.
    pub fn validate_buy_order(
        &self,
        account_id: AccountId,
        symbol: &str,
        price: AmountAtoms,
        quantity: AmountAtoms,
    ) -> (r: Result<(), String>)
        requires
            self.wf(),
        ensures
            failure(r) == (match find(self.view(), account_id) {
                None => Some(unknown(account_id)),
                Some(a) => if a.free() < cost_of(price, quantity) {
                    Some(
                        short_balance(a.free(), cost_of(price, quantity), quantity, symbol@, price),
                    )
                } else {
                    None
                },
            }),
    {
        let account = match self.get_account(account_id) {
            Ok(a) => a,
            Err(e) => return Err(e),
        };
        let free = account.available_balance();
        let cost = money::scale_product(price.atoms(), quantity.atoms());
        if (free.atoms() as i128) < cost {
            let mut out = text::owned("Insufficient balance: have ");
            let have = free.to_decimal_string();
            out.append(have.as_str());
            out.append(", need ");
            let need = money::render_decimal(cost);
            out.append(need.as_str());
            out.append(" for ");
            let amount = quantity.to_decimal_string();
            out.append(amount.as_str());
            out.append(" ");
            out.append(symbol);
            out.append(" @ ");
            let at = price.to_decimal_string();
            out.append(at.as_str());
            return Err(out);
        }
        Ok(())
    }

    /// Checks that a sell can be delivered.
    pub fn validate_sell_order(
        &self,
        account_id: AccountId,
        symbol: &str,
        quantity: AmountAtoms,
    ) -> (r: Result<(), String>)
        requires
            self.wf(),
        ensures
            failure(r) == (match find(self.view(), account_id) {
                None => Some(unknown(account_id)),
                Some(a) => if !a.positions.contains_key(symbol@) {
                    Some("No position in "@ + symbol@)
                } else if a.positions[symbol@].free() < quantity.0 {
                    Some(short_position(a.positions[symbol@].free(), quantity, symbol@))
                } else {
                    None
                },
            }),
    {
        let account = match self.get_account(account_id) {
            Ok(a) => a,
            Err(e) => return Err(e),
        };
        let position = match account.get_position(symbol) {
            Some(p) => p,
            None => {
                let mut out = text::owned("No position in ");
                out.append(symbol);
                return Err(out);
            },
        };
        proof {
            account.lemma_position_in_range(symbol@);
        }
        let free = position.available();
        if free.atoms() < quantity.atoms() {
            let mut out = text::owned("Insufficient position: have ");
            let have = free.to_decimal_string();
            out.append(have.as_str());
            out.append(", need ");
            let need = quantity.to_decimal_string();
            out.append(need.as_str());
            out.append(" of ");
            out.append(symbol);
            return Err(out);
        }
        Ok(())
    }

    /// Holds the cost of a buy.
    pub fn freeze_buy_order(
        &mut self,
        account_id: AccountId,
        price: AmountAtoms,
        quantity: AmountAtoms,
    ) -> (r: Result<(), String>)
        requires
            old(self).wf(),
            find(old(self).view(), account_id) matches Some(a) ==> (buy_frozen(
                a,
                cost_of(price, quantity),
            ) matches Ok(b) ==> b.in_range()),
        ensures
            final(self).wf(),
            match find(old(self).view(), account_id) {
                None => failure(r) == Some(unknown(account_id)) && final(self).view() == old(
                    self,
                ).view(),
                Some(a) => match buy_frozen(a, cost_of(price, quantity)) {
                    Ok(b) => r is Ok && final(self).view() == old(self).view().insert(
                        account_id,
                        b,
                    ),
                    Err(e) => failure(r) == Some(e) && final(self).view() == old(self).view(),
                },
            },
    {
        let cost = money::scale_product(price.atoms(), quantity.atoms());
        let ghost start = self.view();
        let r = match self.get_account_mut(account_id) {
            Ok(account) => {
                account.hold_cost(cost)
            },
            Err(e) => Err(e),
        };
        proof {
            if start.contains_key(account_id) {
                assert(start.insert(account_id, start[account_id]) =~= start);
            }
        }
        r
    }
}

/// The account after a part of a position is held for a sell, and whether
/// enough of it was free. A position that was not known is empty from then on.
pub open spec fn sell_frozen(a: AccountView, symbol: Seq<char>, quantity: AmountAtoms) -> (
    AccountView,
    Option<Seq<char>>,
) {
    let p = a.position(symbol);
    (
        a.with_position(symbol, held(p, quantity)),
        if p.free() >= quantity.0 {
            None
        } else {
            Some("Insufficient position to freeze"@)
        },
    )
}

/// The account after a sell was filled out of what was held for it, and
/// whether enough was.
pub open spec fn delivered(
    a: AccountView,
    symbol: Seq<char>,
    proceeds: int,
    quantity: AmountAtoms,
) -> (AccountView, Option<Seq<char>>) {
    let p = a.position(symbol);
    if p.frozen.0 >= quantity.0 {
        (
            AccountView { balance: a.balance + proceeds, ..a }.with_position(
                symbol,
                sold(p, quantity),
            ),
            None,
        )
    } else {
        (a.with_position(symbol, p), Some("Position not frozen or insufficient"@))
    }
}

/// The account after a cancelled sell let go of what was held for it.
pub open spec fn sell_cancelled(a: AccountView, symbol: Seq<char>, quantity: AmountAtoms) -> AccountView {
    let p = a.position(symbol);
    a.with_position(
        symbol,
        Position { frozen: AmountAtoms(floor_zero(p.frozen.0 - quantity.0) as i64), ..p },
    )
}

impl Account {
    fn hold_part(&mut self, symbol: &str, quantity: AmountAtoms) -> (r: Result<(), String>)
        requires
            old(self).wf(),
            held(old(self).view().position(symbol@), quantity).in_range(),
            old(self).view().position(symbol@).free() >= quantity.0 ==> money::fits_i64(
                old(self).view().position(symbol@).frozen.0 + quantity.0,
            ),
        ensures
            final(self).wf(),
            (final(self).view(), failure(r)) == sell_frozen(old(self).view(), symbol@, quantity),
    {
        proof {
            self.lemma_position_in_range(symbol@);
        }
        let p = self.get_position_mut(symbol);
        if p.freeze(quantity) {
            Ok(())
        } else {
            Err(text::owned("Insufficient position to freeze"))
        }
    }

    fn deliver(&mut self, symbol: &str, proceeds: i128, quantity: AmountAtoms) -> (r: Result<
        (),
        String,
    >)
        requires
            old(self).wf(),
            delivered(old(self).view(), symbol@, proceeds as int, quantity).0.in_range(),
            ({
                let p = old(self).view().position(symbol@);
                p.frozen.0 >= quantity.0 ==> money::fits_i64(p.quantity.0 - quantity.0)
                    && money::fits_i64(p.frozen.0 - quantity.0)
            }),
        ensures
            final(self).wf(),
            (final(self).view(), failure(r)) == delivered(
                old(self).view(),
                symbol@,
                proceeds as int,
                quantity,
            ),
    {
        proof {
            self.lemma_position_in_range(symbol@);
        }
        let ghost goal = delivered(self.view(), symbol@, proceeds as int, quantity).0;
        proof {
            assert(goal.positions.contains_key(symbol@));
        }
        let p = self.get_position_mut(symbol);
        if !p.execute_sell(quantity) {
            return Err(text::owned("Position not frozen or insufficient"));
        }
        let balance = self.balance.atoms() as i128 + proceeds;
        self.balance = AmountAtoms::from_atoms(balance as i64);
        Ok(())
    }

    fn release_part(&mut self, symbol: &str, quantity: AmountAtoms)
        requires
            old(self).wf(),
            money::fits_i64(old(self).view().position(symbol@).frozen.0 - quantity.0),
            sell_cancelled(old(self).view(), symbol@, quantity).in_range(),
        ensures
            final(self).wf(),
            final(self).view() == sell_cancelled(old(self).view(), symbol@, quantity),
    {
        let ghost goal = sell_cancelled(self.view(), symbol@, quantity);
        proof {
            assert(goal.positions.contains_key(symbol@));
        }
        let p = self.get_position_mut(symbol);
        p.unfreeze(quantity);
    }
}

impl AccountManager {
    /// Holds a part of a position for a sell.
    pub fn freeze_sell_order(
        &mut self,
        account_id: AccountId,
        symbol: &str,
        quantity: AmountAtoms,
    ) -> (r: Result<(), String>)
        requires
            old(self).wf(),
            find(old(self).view(), account_id) matches Some(a) ==> {
                &&& held(a.position(symbol@), quantity).in_range()
                &&& a.position(symbol@).free() >= quantity.0 ==> money::fits_i64(
                    a.position(symbol@).frozen.0 + quantity.0,
                )
            },
        ensures
            final(self).wf(),
            match find(old(self).view(), account_id) {
                None => {
                    &&& failure(r) == Some(unknown(account_id))
                    &&& final(self).view() == old(self).view()
                },
                Some(a) => {
                    let (b, e) = sell_frozen(a, symbol@, quantity);
                    &&& failure(r) == e
                    &&& final(self).view() == old(self).view().insert(account_id, b)
                },
            },
    {
        match self.get_account_mut(account_id) {
            Ok(account) => {
                account.hold_part(symbol, quantity)
            },
            Err(e) => Err(e),
        }
    }

    /// Fills a buy: the cost leaves what was held, the quantity is added.
    pub fn execute_buy(
        &mut self,
        account_id: AccountId,
        symbol: &str,
        price: AmountAtoms,
        quantity: AmountAtoms,
    ) -> (r: Result<(), String>)
        requires
            old(self).wf(),
            find(old(self).view(), account_id) matches Some(a) ==> (bought(
                a,
                symbol@,
                cost_of(price, quantity),
                quantity,
            ) matches Ok(b) ==> b.in_range() && money::fits_i64(
                a.position(symbol@).quantity.0 + quantity.0,
            )),
        ensures
            final(self).wf(),
            match find(old(self).view(), account_id) {
                None => {
                    &&& failure(r) == Some(unknown(account_id))
                    &&& final(self).view() == old(self).view()
                },
                Some(a) => match bought(a, symbol@, cost_of(price, quantity), quantity) {
                    Ok(b) => r is Ok && final(self).view() == old(self).view().insert(
                        account_id,
                        b,
                    ),
                    Err(e) => failure(r) == Some(e) && final(self).view() == old(self).view(),
                },
            },
    {
        let cost = money::scale_product(price.atoms(), quantity.atoms());
        let ghost start = self.view();
        let r = match self.get_account_mut(account_id) {
            Ok(account) => {
                account.pay_and_add(symbol, cost, quantity)
            },
            Err(e) => Err(e),
        };
        proof {
            if start.contains_key(account_id) {
                assert(start.insert(account_id, start[account_id]) =~= start);
            }
        }
        r
    }

    /// Fills a sell: the quantity leaves what was held, the proceeds are added.
    pub fn execute_sell(
        &mut self,
        account_id: AccountId,
        symbol: &str,
        price: AmountAtoms,
        quantity: AmountAtoms,
    ) -> (r: Result<(), String>)
        requires
            old(self).wf(),
            find(old(self).view(), account_id) matches Some(a) ==> {
                let p = a.position(symbol@);
                &&& delivered(a, symbol@, cost_of(price, quantity), quantity).0.in_range()
                &&& p.frozen.0 >= quantity.0 ==> money::fits_i64(p.quantity.0 - quantity.0)
                    && money::fits_i64(p.frozen.0 - quantity.0)
            },
        ensures
            final(self).wf(),
            match find(old(self).view(), account_id) {
                None => {
                    &&& failure(r) == Some(unknown(account_id))
                    &&& final(self).view() == old(self).view()
                },
                Some(a) => {
                    let (b, e) = delivered(a, symbol@, cost_of(price, quantity), quantity);
                    &&& failure(r) == e
                    &&& final(self).view() == old(self).view().insert(account_id, b)
                },
            },
    {
        let proceeds = money::scale_product(price.atoms(), quantity.atoms());
        match self.get_account_mut(account_id) {
            Ok(account) => {
                account.deliver(symbol, proceeds, quantity)
            },
            Err(e) => Err(e),
        }
    }

    /// Cancels a buy: what was held for it is free again.
    pub fn cancel_buy_order(
        &mut self,
        account_id: AccountId,
        price: AmountAtoms,
        quantity: AmountAtoms,
    ) -> (r: Result<(), String>)
        requires
            old(self).wf(),
            find(old(self).view(), account_id) matches Some(a) ==> money::fits_i64(
                cost_of(price, quantity),
            ) && buy_cancelled(a, cost_of(price, quantity)).in_range(),
        ensures
            final(self).wf(),
            match find(old(self).view(), account_id) {
                None => {
                    &&& failure(r) == Some(unknown(account_id))
                    &&& final(self).view() == old(self).view()
                },
                Some(a) => {
                    &&& r is Ok
                    &&& final(self).view() == old(self).view().insert(
                        account_id,
                        buy_cancelled(a, cost_of(price, quantity)),
                    )
                },
            },
    {
        let cost = money::scale_product(price.atoms(), quantity.atoms());
        match self.get_account_mut(account_id) {
            Ok(account) => {
                account.let_go(cost);
                Ok(())
            },
            Err(e) => Err(e),
        }
    }

    /// Cancels a sell: what was held for it is free again.
    pub fn cancel_sell_order(
        &mut self,
        account_id: AccountId,
        symbol: &str,
        quantity: AmountAtoms,
    ) -> (r: Result<(), String>)
        requires
            old(self).wf(),
            find(old(self).view(), account_id) matches Some(a) ==> {
                &&& money::fits_i64(a.position(symbol@).frozen.0 - quantity.0)
                &&& sell_cancelled(a, symbol@, quantity).in_range()
            },
        ensures
            final(self).wf(),
            match find(old(self).view(), account_id) {
                None => {
                    &&& failure(r) == Some(unknown(account_id))
                    &&& final(self).view() == old(self).view()
                },
                Some(a) => {
                    &&& r is Ok
                    &&& final(self).view() == old(self).view().insert(
                        account_id,
                        sell_cancelled(a, symbol@, quantity),
                    )
                },
            },
    {
        match self.get_account_mut(account_id) {
            Ok(account) => {
                account.release_part(symbol, quantity);
                Ok(())
            },
            Err(e) => Err(e),
        }
    }

    /// Every account once, in no particular order.
    pub fn all_accounts(&self) -> (r: Vec<&Account>)
        requires
            self.wf(),
        ensures
            r@.len() == self.view().len(),
            forall|i: int|
                0 <= i < r@.len() ==> find(self.view(), (#[trigger] r@[i]).view().id) == Some(
                    r@[i].view(),
                ),
            forall|i: int, j: int|
                0 <= i < j < r@.len() ==> (#[trigger] r@[i]).view().id != (
                #[trigger] r@[j]).view().id,
    {
        broadcast use vstd::std_specs::hash::group_hash_axioms;

        let mut ids: Vec<AccountId> = Vec::new();
        for id in it: self.accounts.keys()
            invariant
                ids@.len() == it.index(),
                forall|i: int| 0 <= i < ids@.len() ==> ids@[i] == *it.seq()[i],
        {
            ids.push(*id);
        }
        proof {
            let walked = vstd::std_specs::iter::IteratorSpec::remaining(&self.accounts.keys());
            assert(ids@ =~= walked.unref());
            assert forall|i: int, j: int| 0 <= i < j < ids@.len() implies ids@[i] != ids@[j] by {
                assert(walked[i] != walked[j]);
            }
            assert forall|i: int| 0 <= i < ids@.len() implies self.accounts@.contains_key(
                #[trigger] ids@[i],
            ) by {
                assert(ids@.to_set().contains(ids@[i]));
            }
            assert(self.view().dom() =~= self.accounts@.dom());
        }
        let mut out: Vec<&Account> = Vec::new();
        let mut n: usize = 0;
        while n < ids.len()
            invariant
                self.wf(),
                n <= ids@.len(),
                out@.len() == n,
                forall|i: int|
                    0 <= i < ids@.len() ==> self.accounts@.contains_key(#[trigger] ids@[i]),
                forall|i: int| 0 <= i < n ==> *#[trigger] out@[i] == self.accounts@[ids@[i]],
            decreases ids@.len() - n,
        {
            assert(self.accounts@.contains_key(ids@[n as int]));
            if let Some(a) = self.accounts.get(&ids[n]) {
                out.push(a);
            }
            n = n + 1;
        }
        proof {
            assert forall|i: int| 0 <= i < out@.len() implies find(
                self.view(),
                (#[trigger] out@[i]).view().id,
            ) == Some(out@[i].view()) by {
                assert(self.accounts@.contains_key(ids@[i]));
            }
            assert forall|i: int, j: int| 0 <= i < j < out@.len() implies (
            #[trigger] out@[i]).view().id != (#[trigger] out@[j]).view().id by {
                assert(self.accounts@.contains_key(ids@[i]));
                assert(self.accounts@.contains_key(ids@[j]));
                assert(ids@[i] != ids@[j]);
            }
        }
        out
    }
}

/// Letting go of what a buy held leaves the account as it was before.
pub proof fn law_cancelled_buy_leaves_no_trace(a: AccountView, cost: int)
    requires
        a.frozen >= 0,
        cost >= 0,
    ensures
        buy_frozen(a, cost) matches Ok(b) ==> buy_cancelled(b, cost) == a,
{
}

/// A buy that is held and then filled takes its cost from the balance once:
/// what is free falls with the hold and stays with the fill.
pub proof fn law_fill_spends_what_was_held(
    a: AccountView,
    symbol: Seq<char>,
    cost: int,
    quantity: AmountAtoms,
)
    requires
        a.frozen >= 0,
        cost >= 0,
    ensures
        buy_frozen(a, cost) matches Ok(b) ==> (bought(b, symbol, cost, quantity) matches Ok(c) && {
            &&& b.free() == a.free() - cost
            &&& c.free() == b.free()
            &&& c.balance == a.balance - cost
            &&& c.frozen == a.frozen
        }),
{
}

/// A trade between two accounts moves money and quantity from one to the
/// other: neither is made or lost.
pub proof fn law_trade_conserves(
    buyer: AccountView,
    seller: AccountView,
    symbol: Seq<char>,
    price: AmountAtoms,
    quantity: AmountAtoms,
)
    requires
        money::fits_i64(buyer.position(symbol).quantity.0 + quantity.0),
        money::fits_i64(seller.position(symbol).quantity.0 - quantity.0),
    ensures
        ({
            let cost = cost_of(price, quantity);
            let (after, refused) = delivered(seller, symbol, cost, quantity);
            refused is None ==> (bought(buyer, symbol, cost, quantity) matches Ok(b) ==> {
                &&& b.balance + after.balance == buyer.balance + seller.balance
                &&& b.position(symbol).quantity.0 + after.position(symbol).quantity.0
                    == buyer.position(symbol).quantity.0 + seller.position(symbol).quantity.0
            })
        }),
{
}

/// Why a buy cannot be paid for.
pub open spec fn short_balance(
    have: int,
    need: int,
    quantity: AmountAtoms,
    symbol: Seq<char>,
    price: AmountAtoms,
) -> Seq<char> {
    "Insufficient balance: have "@ + money::amount_text(have) + ", need "@ + money::amount_text(
        need,
    ) + " for "@ + money::amount_text(quantity.0 as int) + " "@ + symbol + " @ "@
        + money::amount_text(price.0 as int)
}

/// Why a sell cannot be delivered.
pub open spec fn short_position(have: int, quantity: AmountAtoms, symbol: Seq<char>) -> Seq<char> {
    "Insufficient position: have "@ + money::amount_text(have) + ", need "@ + money::amount_text(
        quantity.0 as int,
    ) + " of "@ + symbol
}

impl Account {
    proof fn lemma_position_in_range(&self, symbol: Seq<char>)
        requires
            self.wf(),
        ensures
            self.view().position(symbol).in_range(),
    {
        if self.view().positions.contains_key(symbol) {
        }
    }
}

/// Money is held for a buy exactly where what is free covers it, and only moves
/// from free to held.
pub proof fn law_hold_needs_free_money(a: AccountView, cost: int)
    requires
        a.frozen >= 0,
        cost > 0,
    ensures
        buy_frozen(a, cost) is Ok <==> a.balance - a.frozen >= cost,
        buy_frozen(a, cost) matches Ok(b) ==> {
            &&& b.balance == a.balance
            &&& b.frozen == a.frozen + cost
            &&& b.positions == a.positions && b.id == a.id
        },
{
}

/// A filled buy pays its cost out of what was held and adds the quantity to the
/// position; other positions stay.
pub proof fn law_filled_buy_adds_to_the_position(
    a: AccountView,
    symbol: Seq<char>,
    cost: int,
    quantity: AmountAtoms,
    other: Seq<char>,
)
    requires
        money::fits_i64(a.position(symbol).quantity.0 + quantity.0),
    ensures
        bought(a, symbol, cost, quantity) is Ok <==> cost <= a.frozen,
        bought(a, symbol, cost, quantity) matches Ok(b) ==> {
            &&& b.balance == a.balance - cost
            &&& b.frozen == a.frozen - cost
            &&& b.position(symbol).quantity.0 == a.position(symbol).quantity.0 + quantity.0
            &&& b.position(symbol).frozen == a.position(symbol).frozen
            &&& other != symbol ==> b.position(other) == a.position(other)
        },
{
}

/// A sell holds a part of the position where that part is free; cancelled, it
/// leaves the position as it was; filled, it takes the part away and pays the
/// proceeds. Other positions stay.
pub proof fn law_sell_holds_and_delivers(
    a: AccountView,
    symbol: Seq<char>,
    quantity: AmountAtoms,
    proceeds: int,
    other: Seq<char>,
)
    requires
        quantity.0 > 0,
        a.position(symbol).frozen.0 >= 0,
        money::fits_i64(a.position(symbol).frozen.0 + quantity.0),
        a.position(symbol).quantity.0 >= 0,
    ensures
        ({
            let p = a.position(symbol);
            let (b, refused) = sell_frozen(a, symbol, quantity);
            let (c, failed) = delivered(b, symbol, proceeds, quantity);
            &&& refused is None <==> p.quantity.0 - p.frozen.0 >= quantity.0
            &&& refused is Some ==> b.position(symbol) == p
            &&& refused is None ==> {
                &&& b.position(symbol).frozen.0 == p.frozen.0 + quantity.0
                &&& b.position(symbol).quantity == p.quantity
                &&& sell_cancelled(b, symbol, quantity).position(symbol) == p
                &&& failed is None
                &&& c.position(symbol).quantity.0 == p.quantity.0 - quantity.0
                &&& c.position(symbol).frozen == p.frozen
                &&& c.balance == a.balance + proceeds
                &&& c.frozen == a.frozen
            }
            &&& b.balance == a.balance && b.frozen == a.frozen
            &&& other != symbol ==> b.position(other) == a.position(other) && c.position(other)
                == a.position(other) && sell_cancelled(b, symbol, quantity).position(other)
                == a.position(other)
        }),
{
}

/// A position adds its quantity times its price to what an account is worth,
/// to the nearest atom; one without a price adds nothing.
pub proof fn law_worth_adds_each_position(
    list: Seq<(String, Position)>,
    name: String,
    p: Position,
    prices: Map<Seq<char>, AmountAtoms>,
)
    ensures
        ({
            let gain = worth(list.push((name, p)), prices) - worth(list, prices);
            &&& !prices.contains_key(name@) ==> gain == 0
            &&& prices.contains_key(name@) ==> gain * 100_000_000 - 50_000_000 <= p.quantity.0
                * prices[name@].0 < gain * 100_000_000 + 50_000_000
        }),
        worth(Seq::empty(), prices) == 0,
{
    let all = list.push((name, p));
    assert(all.drop_last() =~= list);
    if prices.contains_key(name@) {
        money::law_product_is_the_nearest_amount(p.quantity.0 as int, prices[name@].0 as int);
    }
}

} // verus!
