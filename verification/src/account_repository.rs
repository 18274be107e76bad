//! Fund movements: deposits, withdrawals, freezes and settlements, each as the
//! changes of accounts and the audit rows that one transaction writes.
use crate::money;
use crate::money::{AccountBalance, AmountAtoms, AmountError};
use crate::text;
use vstd::prelude::*;

verus! {

/// A change of one account.
#[derive(Debug)]
pub enum LedgerLeg {
    /// Frozen funds leave an account that exists.
    Debit { user_id: i64, asset: String, atoms: i64 },
    /// Funds reach an account, which is opened where it does not exist.
    Credit { user_id: i64, asset: String, atoms: i64 },
    /// Frozen funds become spendable again.
    Release { user_id: i64, asset: String, atoms: i64 },
}

#[verifier::ext_equal]
pub enum LegView {
    Debit { user_id: i64, asset: Seq<char>, atoms: i64 },
    Credit { user_id: i64, asset: Seq<char>, atoms: i64 },
    Release { user_id: i64, asset: Seq<char>, atoms: i64 },
}

impl LedgerLeg {
    pub open spec fn view(&self) -> LegView {
        match *self {
            LedgerLeg::Debit { user_id, asset, atoms } => LegView::Debit {
                user_id,
                asset: asset@,
                atoms,
            },
            LedgerLeg::Credit { user_id, asset, atoms } => LegView::Credit {
                user_id,
                asset: asset@,
                atoms,
            },
            LedgerLeg::Release { user_id, asset, atoms } => LegView::Release {
                user_id,
                asset: asset@,
                atoms,
            },
        }
    }
}

pub open spec fn leg_views(s: Seq<LedgerLeg>) -> Seq<LegView> {
    s.map_values(|l: LedgerLeg| l.view())
}

/// A row of the fund audit.
#[derive(Debug)]
pub struct AuditRow {
    pub user_id: i64,
    pub asset: String,
    pub kind: &'static str,
    pub amount_atoms: i64,
    pub ref_id: i64,
}

#[verifier::ext_equal]
pub struct AuditView {
    pub user_id: i64,
    pub asset: Seq<char>,
    pub kind: Seq<char>,
    pub amount_atoms: i64,
    pub ref_id: i64,
}

impl AuditRow {
    pub open spec fn view(&self) -> AuditView {
        AuditView {
            user_id: self.user_id,
            asset: self.asset@,
            kind: self.kind@,
            amount_atoms: self.amount_atoms,
            ref_id: self.ref_id,
        }
    }
}

pub open spec fn audit_views(s: Seq<AuditRow>) -> Seq<AuditView> {
    s.map_values(|a: AuditRow| a.view())
}

/// Balance and frozen funds by user and asset, without bound.
pub type Ledger = Map<(i64, Seq<char>), (int, int)>;

/// The ledger after a change. Debits and releases of accounts that do not exist
/// change nothing.
pub open spec fn after_leg(ledger: Ledger, leg: LegView) -> Ledger {
    match leg {
        LegView::Debit { user_id, asset, atoms } => {
            let key = (user_id, asset);
            if ledger.contains_key(key) {
                ledger.insert(key, (ledger[key].0 - atoms, ledger[key].1 - atoms))
            } else {
                ledger
            }
        },
        LegView::Credit { user_id, asset, atoms } => {
            let key = (user_id, asset);
            if ledger.contains_key(key) {
                ledger.insert(key, (ledger[key].0 + atoms, ledger[key].1))
            } else {
                ledger.insert(key, (atoms as int, 0))
            }
        },
        LegView::Release { user_id, asset, atoms } => {
            let key = (user_id, asset);
            if ledger.contains_key(key) {
                ledger.insert(key, (ledger[key].0, ledger[key].1 - atoms))
            } else {
                ledger
            }
        },
    }
}

pub open spec fn after_legs(ledger: Ledger, legs: Seq<LegView>) -> Ledger
    decreases legs.len(),
{
    if legs.len() == 0 {
        ledger
    } else {
        after_leg(after_legs(ledger, legs.drop_last()), legs.last())
    }
}

/// What an account holds; nothing where it does not exist.
pub open spec fn balance_at(ledger: Ledger, user_id: i64, asset: Seq<char>) -> int {
    if ledger.contains_key((user_id, asset)) {
        ledger[(user_id, asset)].0
    } else {
        0
    }
}

pub open spec fn frozen_at(ledger: Ledger, user_id: i64, asset: Seq<char>) -> int {
    if ledger.contains_key((user_id, asset)) {
        ledger[(user_id, asset)].1
    } else {
        0
    }
}

/// The trade that a settlement records.
#[derive(Debug)]
pub struct SettleTradeRecord {
    pub symbol: String,
    pub buy_order_id: i64,
    pub sell_order_id: i64,
}

#[verifier::ext_equal]
pub struct RecordView {
    pub symbol: Seq<char>,
    pub buy_order_id: i64,
    pub sell_order_id: i64,
}

impl SettleTradeRecord {
    pub open spec fn view(&self) -> RecordView {
        RecordView {
            symbol: self.symbol@,
            buy_order_id: self.buy_order_id,
            sell_order_id: self.sell_order_id,
        }
    }
}

/// Why a fill cannot be settled.
#[derive(Debug, Clone, Copy, PartialEq, Eq, Structural)]
pub enum SettleError {
    Amount(AmountError),
    FeeExceedsCost,
}

impl SettleError {
    pub open spec fn text(self) -> Seq<char> {
        match self {
            SettleError::Amount(e) => e.text(),
            SettleError::FeeExceedsCost => "sell fee exceeds trade cost"@,
        }
    }

    pub fn message(self) -> (r: &'static str)
        ensures
            r@ == self.text(),
    {
        match self {
            SettleError::Amount(e) => e.message(),
            SettleError::FeeExceedsCost => "sell fee exceeds trade cost",
        }
    }
}

/// The two sides of a fill.
#[derive(Debug, Clone, Copy, PartialEq, Eq, Structural)]
pub struct SettleAmounts {
    pub cost: AmountAtoms,
    pub buyer_debit: AmountAtoms,
    pub seller_credit: AmountAtoms,
}

/// The cost of a fill with the fees added for the buyer and taken from the
/// seller.
pub open spec fn settle_amounts(
    price: AmountAtoms,
    quantity: AmountAtoms,
    buy_fee: AmountAtoms,
    sell_fee: AmountAtoms,
) -> Result<SettleAmounts, SettleError> {
    let cost = money::scaled_product(price.0 as int, quantity.0 as int);
    if !money::fits_i64(cost) || !money::fits_i64(cost + buy_fee.0) || !money::fits_i64(
        cost - sell_fee.0,
    ) {
        Err(SettleError::Amount(AmountError::Overflow))
    } else if cost < sell_fee.0 {
        Err(SettleError::FeeExceedsCost)
    } else {
        Ok(
            SettleAmounts {
                cost: AmountAtoms(cost as i64),
                buyer_debit: AmountAtoms((cost + buy_fee.0) as i64),
                seller_credit: AmountAtoms((cost - sell_fee.0) as i64),
            },
        )
    }
}

pub fn compute_settle_amounts(
    price: AmountAtoms,
    quantity: AmountAtoms,
    buy_fee: AmountAtoms,
    sell_fee: AmountAtoms,
) -> (r: Result<SettleAmounts, SettleError>)
    ensures
        r == settle_amounts(price, quantity, buy_fee, sell_fee),
{
    let cost = match price.checked_mul_scaled(quantity) {
        Ok(v) => v,
        Err(e) => {
            return Err(SettleError::Amount(e));
        },
    };
    let buyer_debit = match cost.checked_add(buy_fee) {
        Ok(v) => v,
        Err(e) => {
            return Err(SettleError::Amount(e));
        },
    };
    let seller_credit = match cost.checked_sub(sell_fee) {
        Ok(v) => v,
        Err(e) => {
            return Err(SettleError::Amount(e));
        },
    };
    if seller_credit.atoms() < 0 {
        return Err(SettleError::FeeExceedsCost);
    }
    Ok(SettleAmounts { cost, buyer_debit, seller_credit })
}

/// Everything that one settlement writes.
#[derive(Debug)]
pub struct Settlement {
    pub legs: Vec<LedgerLeg>,
    pub audit: Vec<AuditRow>,
    pub trade: Option<SettleTradeRecord>,
    pub price_atoms: i64,
    pub quantity_atoms: i64,
}

/// The parties and assets of a fill.
#[verifier::ext_equal]
pub struct FillParties {
    pub buyer_id: i64,
    pub seller_id: i64,
    pub base: Seq<char>,
    pub quote: Seq<char>,
}

/// The changes of a settlement: the buyer pays frozen quote and gets base, the
/// seller gives frozen base and gets quote.
pub open spec fn settle_legs(f: FillParties, quantity: i64, a: SettleAmounts) -> Seq<LegView> {
    seq![
        LegView::Debit { user_id: f.buyer_id, asset: f.quote, atoms: a.buyer_debit.0 },
        LegView::Credit { user_id: f.buyer_id, asset: f.base, atoms: quantity },
        LegView::Debit { user_id: f.seller_id, asset: f.base, atoms: quantity },
        LegView::Credit { user_id: f.seller_id, asset: f.quote, atoms: a.seller_credit.0 },
    ]
}

/// The audit rows of a settlement, one for each change.
pub open spec fn settle_audit(f: FillParties, quantity: i64, a: SettleAmounts, ref_id: i64) -> Seq<
    AuditView,
> {
    seq![
        AuditView {
            user_id: f.buyer_id,
            asset: f.quote,
            kind: "settle_debit"@,
            amount_atoms: a.buyer_debit.0,
            ref_id,
        },
        AuditView {
            user_id: f.buyer_id,
            asset: f.base,
            kind: "settle_credit"@,
            amount_atoms: quantity,
            ref_id,
        },
        AuditView {
            user_id: f.seller_id,
            asset: f.base,
            kind: "settle_debit"@,
            amount_atoms: quantity,
            ref_id,
        },
        AuditView {
            user_id: f.seller_id,
            asset: f.quote,
            kind: "settle_credit"@,
            amount_atoms: a.seller_credit.0,
            ref_id,
        },
    ]
}

pub open spec fn record_view(t: Option<&SettleTradeRecord>) -> Option<RecordView> {
    match t {
        Some(r) => Some(r.view()),
        None => None,
    }
}

pub open spec fn kept_record(t: Option<SettleTradeRecord>) -> Option<RecordView> {
    match t {
        Some(r) => Some(r.view()),
        None => None,
    }
}

fn audit_row(user_id: i64, asset: &str, kind: &'static str, amount_atoms: i64, ref_id: i64) -> (r:
    AuditRow)
    ensures
        r.view() == (AuditView { user_id, asset: asset@, kind: kind@, amount_atoms, ref_id }),
{
    AuditRow { user_id, asset: text::owned(asset), kind, amount_atoms, ref_id }
}

/// Settles a fill: the four account changes, their audit rows and the trade,
/// all of one transaction.
pub fn settle_trade_atoms(
    buyer_id: i64,
    seller_id: i64,
    base_asset: &str,
    quote_asset: &str,
    price: AmountAtoms,
    quantity: AmountAtoms,
    buy_fee: AmountAtoms,
    sell_fee: AmountAtoms,
    trade: Option<&SettleTradeRecord>,
) -> (r: Result<Settlement, SettleError>)
    ensures
        match settle_amounts(price, quantity, buy_fee, sell_fee) {
            Err(e) => r matches Err(x) && x == e,
            Ok(a) => r matches Ok(s) && {
                let f = (FillParties {
                    buyer_id,
                    seller_id,
                    base: base_asset@,
                    quote: quote_asset@,
                });
                let ref_id = match record_view(trade) {
                    Some(t) => t.buy_order_id,
                    None => 0,
                };
                &&& leg_views(s.legs@) == settle_legs(f, quantity.0, a)
                &&& audit_views(s.audit@) == settle_audit(f, quantity.0, a, ref_id)
                &&& kept_record(s.trade) == record_view(trade)
                &&& s.price_atoms == price.0
                &&& s.quantity_atoms == quantity.0
            },
        },
{
    let a = match compute_settle_amounts(price, quantity, buy_fee, sell_fee) {
        Ok(a) => a,
        Err(e) => {
            return Err(e);
        },
    };
    let ghost f = FillParties {
        buyer_id,
        seller_id,
        base: base_asset@,
        quote: quote_asset@,
    };
    let ref_id: i64 = match trade {
        Some(t) => t.buy_order_id,
        None => 0,
    };
    let mut legs: Vec<LedgerLeg> = Vec::new();
    legs.push(
        LedgerLeg::Debit {
            user_id: buyer_id,
            asset: text::owned(quote_asset),
            atoms: a.buyer_debit.atoms(),
        },
    );
    legs.push(
        LedgerLeg::Credit {
            user_id: buyer_id,
            asset: text::owned(base_asset),
            atoms: quantity.atoms(),
        },
    );
    legs.push(
        LedgerLeg::Debit {
            user_id: seller_id,
            asset: text::owned(base_asset),
            atoms: quantity.atoms(),
        },
    );
    legs.push(
        LedgerLeg::Credit {
            user_id: seller_id,
            asset: text::owned(quote_asset),
            atoms: a.seller_credit.atoms(),
        },
    );
    let mut audit: Vec<AuditRow> = Vec::new();
    audit.push(audit_row(buyer_id, quote_asset, "settle_debit", a.buyer_debit.atoms(), ref_id));
    audit.push(audit_row(buyer_id, base_asset, "settle_credit", quantity.atoms(), ref_id));
    audit.push(audit_row(seller_id, base_asset, "settle_debit", quantity.atoms(), ref_id));
    audit.push(audit_row(seller_id, quote_asset, "settle_credit", a.seller_credit.atoms(), ref_id));
    let kept = match trade {
        Some(t) => Some(
            SettleTradeRecord {
                symbol: text::owned(t.symbol.as_str()),
                buy_order_id: t.buy_order_id,
                sell_order_id: t.sell_order_id,
            },
        ),
        None => None,
    };
    proof {
        assert(leg_views(legs@) =~= settle_legs(f, quantity.0, a));
        assert(audit_views(audit@) =~= settle_audit(f, quantity.0, a, ref_id));
    }
    Ok(
        Settlement {
            legs,
            audit,
            trade: kept,
            price_atoms: price.atoms(),
            quantity_atoms: quantity.atoms(),
        },
    )
}

/// A settlement makes and loses nothing: the base that the buyer gets is what
/// the seller gives, and the quote that the buyer pays is what the seller gets
/// and the two fees.
pub proof fn law_settlement_conserves_funds(
    ledger: Ledger,
    f: FillParties,
    price: AmountAtoms,
    quantity: AmountAtoms,
    buy_fee: AmountAtoms,
    sell_fee: AmountAtoms,
    a: SettleAmounts,
)
    requires
        settle_amounts(price, quantity, buy_fee, sell_fee) == Ok::<SettleAmounts, SettleError>(a),
        f.base != f.quote,
        f.buyer_id != f.seller_id,
        ledger.contains_key((f.buyer_id, f.quote)),
        ledger.contains_key((f.seller_id, f.base)),
    ensures
        ({
            let after = after_legs(ledger, settle_legs(f, quantity.0, a));
            &&& balance_at(after, f.buyer_id, f.base) + balance_at(after, f.seller_id, f.base)
                == balance_at(ledger, f.buyer_id, f.base) + balance_at(ledger, f.seller_id, f.base)
            &&& balance_at(after, f.buyer_id, f.quote) + balance_at(after, f.seller_id, f.quote)
                + buy_fee.0 + sell_fee.0 == balance_at(ledger, f.buyer_id, f.quote) + balance_at(
                ledger,
                f.seller_id,
                f.quote,
            )
            &&& a.buyer_debit.0 == a.seller_credit.0 + buy_fee.0 + sell_fee.0
            &&& a.seller_credit.0 >= 0
        }),
{
    reveal_with_fuel(after_legs, 5);
    let legs = settle_legs(f, quantity.0, a);
    assert(legs.drop_last().drop_last().drop_last().drop_last() =~= seq![]);
    assert(legs.drop_last().drop_last().drop_last().last() == legs[0]);
    assert(legs.drop_last().drop_last().last() == legs[1]);
    assert(legs.drop_last().last() == legs[2]);
}

/// Other accounts are not touched by a settlement.
pub proof fn law_settlement_touches_only_its_parties(
    ledger: Ledger,
    f: FillParties,
    quantity: i64,
    a: SettleAmounts,
    user_id: i64,
    asset: Seq<char>,
)
    requires
        (user_id != f.buyer_id && user_id != f.seller_id) || (asset != f.base && asset != f.quote),
    ensures
        ({
            let after = after_legs(ledger, settle_legs(f, quantity, a));
            &&& balance_at(after, user_id, asset) == balance_at(ledger, user_id, asset)
            &&& frozen_at(after, user_id, asset) == frozen_at(ledger, user_id, asset)
        }),
{
    reveal_with_fuel(after_legs, 5);
    let legs = settle_legs(f, quantity, a);
    assert(legs.drop_last().drop_last().drop_last().drop_last() =~= seq![]);
    assert(legs.drop_last().drop_last().drop_last().last() == legs[0]);
    assert(legs.drop_last().drop_last().last() == legs[1]);
    assert(legs.drop_last().last() == legs[2]);
}

/// Why a fund movement is refused.
#[derive(Debug, Clone, Copy, PartialEq, Eq, Structural)]
pub enum FundError {
    DepositNotPositive,
    WithdrawalAmount,
    TotalOverflow,
    NegativeFreeze,
    NegativeRelease,
    CannotWithdraw,
    CannotFreeze,
    WithdrawalNotFound,
    NotConfirmable,
    AlreadyConfirmed,
}

/// What a refusal is about.
pub struct FundContext<'a> {
    pub withdrawal_id: i64,
    pub asset: &'a str,
    pub status: &'a str,
    pub amount: AmountAtoms,
}

impl FundError {
    /// The words of a refusal.
    pub open spec fn text(
        self,
        id: i64,
        asset: Seq<char>,
        status: Seq<char>,
        amount: AmountAtoms,
    ) -> Seq<char> {
        match self {
            FundError::DepositNotPositive => "deposit amount must be positive"@,
            FundError::WithdrawalAmount =>
                "withdrawal amount must be positive, fee non-negative"@,
            FundError::TotalOverflow => "amount + fee overflow"@,
            FundError::NegativeFreeze => "cannot freeze a negative amount"@,
            FundError::NegativeRelease => "cannot release a negative amount"@,
            FundError::CannotWithdraw => "insufficient "@ + asset + " balance to withdraw"@,
            FundError::CannotFreeze => "Insufficient "@ + asset + " balance to freeze "@
                + money::amount_text(amount.0 as int),
            FundError::WithdrawalNotFound => "withdrawal "@ + text::int_text(id as int)
                + " not found"@,
            FundError::NotConfirmable => "withdrawal "@ + text::int_text(id as int)
                + " not in a confirmable state ("@ + status + ")"@,
            FundError::AlreadyConfirmed => "withdrawal "@ + text::int_text(id as int)
                + " already confirmed — cannot fail"@,
        }
    }

    pub fn message(self, about: &FundContext) -> (r: String)
        ensures
            r@ == self.text(about.withdrawal_id, about.asset@, about.status@, about.amount),
    {
        let mut out = String::new();
        match self {
            FundError::DepositNotPositive => {
                out.append("deposit amount must be positive");
            },
            FundError::WithdrawalAmount => {
                out.append("withdrawal amount must be positive, fee non-negative");
            },
            FundError::TotalOverflow => {
                out.append("amount + fee overflow");
            },
            FundError::NegativeFreeze => {
                out.append("cannot freeze a negative amount");
            },
            FundError::NegativeRelease => {
                out.append("cannot release a negative amount");
            },
            FundError::CannotWithdraw => {
                out.append("insufficient ");
                out.append(about.asset);
                out.append(" balance to withdraw");
            },
            FundError::CannotFreeze => {
                out.append("Insufficient ");
                out.append(about.asset);
                out.append(" balance to freeze ");
                let amount = about.amount.to_decimal_string();
                out.append(amount.as_str());
            },
            FundError::WithdrawalNotFound => {
                out.append("withdrawal ");
                text::append_int(&mut out, about.withdrawal_id);
                out.append(" not found");
            },
            FundError::NotConfirmable => {
                out.append("withdrawal ");
                text::append_int(&mut out, about.withdrawal_id);
                out.append(" not in a confirmable state (");
                out.append(about.status);
                out.append(")");
            },
            FundError::AlreadyConfirmed => {
                out.append("withdrawal ");
                text::append_int(&mut out, about.withdrawal_id);
                out.append(" already confirmed — cannot fail");
            },
        }
        proof {
            assert(out@ =~= self.text(
                about.withdrawal_id,
                about.asset@,
                about.status@,
                about.amount,
            ));
        }
        out
    }
}

/// A fund movement to be written.
#[derive(Debug)]
pub struct Movement {
    pub leg: LedgerLeg,
    pub audit: AuditRow,
}

/// A movement over plain values.
#[verifier::ext_equal]
pub struct MovementView {
    pub leg: LegView,
    pub audit: AuditView,
}

pub open spec fn movement_view(r: Result<Option<Movement>, FundError>) -> Result<
    Option<MovementView>,
    FundError,
> {
    match r {
        Ok(Some(m)) => Ok(Some(MovementView { leg: m.leg.view(), audit: m.audit.view() })),
        Ok(None) => Ok(None),
        Err(e) => Err(e),
    }
}

/// The credit of a confirmed deposit; nothing where `fresh` says that the
/// transfer was recorded before.
pub open spec fn deposit_movement(user_id: i64, asset: Seq<char>, amount: i64, fresh: bool) -> Result<
    Option<MovementView>,
    FundError,
> {
    if amount <= 0 {
        Err(FundError::DepositNotPositive)
    } else if !fresh {
        Ok(None)
    } else {
        Ok(
            Some(
                MovementView {
                    leg: LegView::Credit { user_id, asset, atoms: amount },
                    audit: AuditView {
                        user_id,
                        asset,
                        kind: "deposit"@,
                        amount_atoms: amount,
                        ref_id: 0,
                    },
                },
            ),
        )
    }
}

/// Tells whether a deposit can be recorded at all.
pub fn check_deposit(amount_atoms: i64) -> (r: Result<(), FundError>)
    ensures
        r == (if amount_atoms <= 0 {
            Err(FundError::DepositNotPositive)
        } else {
            Ok(())
        }),
{
    if amount_atoms <= 0 {
        Err(FundError::DepositNotPositive)
    } else {
        Ok(())
    }
}

/// Credits a confirmed deposit, once per transfer: `fresh` tells whether the
/// transfer was recorded just now.
pub fn credit_chain_deposit(user_id: i64, asset: &str, amount_atoms: i64, fresh: bool) -> (r: Result<
    Option<Movement>,
    FundError,
>)
    ensures
        movement_view(r) == deposit_movement(user_id, asset@, amount_atoms, fresh),
{
    match check_deposit(amount_atoms) {
        Ok(_) => {},
        Err(e) => {
            return Err(e);
        },
    }
    if !fresh {
        return Ok(None);
    }
    Ok(
        Some(
            Movement {
                leg: LedgerLeg::Credit { user_id, asset: text::owned(asset), atoms: amount_atoms },
                audit: audit_row(user_id, asset, "deposit", amount_atoms, 0),
            },
        ),
    )
}

/// A transfer: chain, transaction and log index.
pub type TransferKey = (Seq<char>, Seq<char>, i32);

/// The transfers recorded and the ledger, after a delivery of a deposit.
pub open spec fn after_deposit(
    seen: Set<TransferKey>,
    ledger: Ledger,
    key: TransferKey,
    user_id: i64,
    asset: Seq<char>,
    amount: i64,
) -> (Set<TransferKey>, Ledger) {
    match deposit_movement(user_id, asset, amount, !seen.contains(key)) {
        Err(_) => (seen, ledger),
        Ok(None) => (seen, ledger),
        Ok(Some(m)) => (seen.insert(key), after_leg(ledger, m.leg)),
    }
}

/// A deposit is credited exactly once, however often it is delivered.
pub proof fn law_deposit_is_credited_once(
    seen: Set<TransferKey>,
    ledger: Ledger,
    key: TransferKey,
    user_id: i64,
    asset: Seq<char>,
    amount: i64,
)
    requires
        amount > 0,
        !seen.contains(key),
    ensures
        ({
            let (s1, l1) = after_deposit(seen, ledger, key, user_id, asset, amount);
            let (s2, l2) = after_deposit(s1, l1, key, user_id, asset, amount);
            &&& balance_at(l1, user_id, asset) == balance_at(ledger, user_id, asset) + amount
            &&& s2 == s1
            &&& l2 == l1
        }),
{
}

/// What a withdrawal sets aside: the amount and the fee.
pub open spec fn withdrawal_total(amount: i64, fee: i64) -> Result<i64, FundError> {
    if amount <= 0 || fee < 0 {
        Err(FundError::WithdrawalAmount)
    } else if !money::fits_i64(amount + fee) {
        Err(FundError::TotalOverflow)
    } else {
        Ok((amount + fee) as i64)
    }
}

/// The account after a freeze of an amount that its spendable part covers.
pub open spec fn frozen_account(account: Option<AccountBalance>, total: i64) -> Option<
    AccountBalance,
> {
    match account {
        Some(a) if a.spendable() >= total => Some(a.with_frozen(total as int)),
        _ => None,
    }
}

fn freeze(account: Option<AccountBalance>, total: i64) -> (r: Option<AccountBalance>)
    requires
        total >= 0,
    ensures
        r == frozen_account(account, total),
{
    match account {
        Some(a) => if a.balance_atoms as i128 - a.frozen_atoms as i128 >= total as i128 {
            Some(AccountBalance::from_atoms(a.balance_atoms, a.frozen_atoms + total))
        } else {
            None
        },
        None => None,
    }
}

/// A withdrawal request: the total set aside and the account afterwards.
pub open spec fn requested(account: Option<AccountBalance>, amount: i64, fee: i64) -> Result<
    (i64, AccountBalance),
    FundError,
> {
    match withdrawal_total(amount, fee) {
        Err(e) => Err(e),
        Ok(total) => match frozen_account(account, total) {
            Some(a) => Ok((total, a)),
            None => Err(FundError::CannotWithdraw),
        },
    }
}

/// Requests a withdrawal: sets the amount and the fee aside.
pub fn request_withdrawal(account: Option<AccountBalance>, amount_atoms: i64, fee_atoms: i64) -> (r:
    Result<(i64, AccountBalance), FundError>)
    ensures
        r == requested(account, amount_atoms, fee_atoms),
{
    if amount_atoms <= 0 || fee_atoms < 0 {
        return Err(FundError::WithdrawalAmount);
    }
    let total = match amount_atoms.checked_add(fee_atoms) {
        Some(t) => t,
        None => {
            return Err(FundError::TotalOverflow);
        },
    };
    match freeze(account, total) {
        Some(a) => Ok((total, a)),
        None => Err(FundError::CannotWithdraw),
    }
}

/// The status of a withdrawal after a move from `from` to `to`, which happens
/// only where it is in `from`.
pub open spec fn moved_status(current: Seq<char>, from: Seq<char>, to: Seq<char>) -> Seq<char> {
    if current == from {
        to
    } else {
        current
    }
}

/// Moves a withdrawal from `from` to `to` and tells whether it did; funds are
/// not touched.
pub fn set_withdrawal_status(status: &mut String, from: &str, to: &str) -> (r: bool)
    ensures
        r == (old(status)@ == from@),
        final(status)@ == moved_status(old(status)@, from@, to@),
{
    if text::str_eq(status.as_str(), from) {
        *status = text::owned(to);
        true
    } else {
        false
    }
}

/// Delivering a status move again changes nothing.
pub proof fn law_status_move_is_idempotent(current: Seq<char>, from: Seq<char>, to: Seq<char>)
    ensures
        moved_status(moved_status(current, from, to), from, to) == moved_status(current, from, to),
{
}

/// A stored withdrawal.
#[derive(Debug)]
pub struct WithdrawalRow {
    pub id: i64,
    pub user_id: i64,
    pub asset: String,
    pub amount_atoms: i64,
    pub fee_atoms: i64,
    pub status: String,
}

#[verifier::ext_equal]
pub struct WithdrawalView {
    pub id: i64,
    pub user_id: i64,
    pub asset: Seq<char>,
    pub amount_atoms: i64,
    pub fee_atoms: i64,
    pub status: Seq<char>,
}

impl WithdrawalRow {
    pub open spec fn view(&self) -> WithdrawalView {
        WithdrawalView {
            id: self.id,
            user_id: self.user_id,
            asset: self.asset@,
            amount_atoms: self.amount_atoms,
            fee_atoms: self.fee_atoms,
            status: self.status@,
        }
    }
}

impl WithdrawalView {
    /// What was set aside.
    pub open spec fn total(self) -> int {
        self.amount_atoms + self.fee_atoms
    }

    pub open spec fn with_status(self, status: Seq<char>) -> WithdrawalView {
        WithdrawalView { status, ..self }
    }

    pub open spec fn audit(self, kind: Seq<char>) -> AuditView {
        AuditView {
            user_id: self.user_id,
            asset: self.asset,
            kind,
            amount_atoms: self.total() as i64,
            ref_id: self.id,
        }
    }
}

/// The audit row of a withdrawal that was requested.
pub fn withdrawal_audit(row: &WithdrawalRow) -> (r: AuditRow)
    requires
        money::fits_i64(row.view().total()),
    ensures
        r.view() == row.view().audit("wd_freeze"@),
{
    audit_row(
        row.user_id,
        row.asset.as_str(),
        "wd_freeze",
        row.amount_atoms + row.fee_atoms,
        row.id,
    )
}

/// The confirmation of a withdrawal: the funds leave where it was approved or
/// broadcast; nothing happens where it was confirmed before.
pub open spec fn confirmation(row: Option<WithdrawalView>) -> Result<
    Option<MovementView>,
    FundError,
> {
    match row {
        None => Err(FundError::WithdrawalNotFound),
        Some(w) => if w.status == "confirmed"@ {
            Ok(None)
        } else if w.status != "approved"@ && w.status != "broadcast"@ {
            Err(FundError::NotConfirmable)
        } else {
            Ok(
                Some(
                    MovementView {
                        leg: LegView::Debit {
                            user_id: w.user_id,
                            asset: w.asset,
                            atoms: w.total() as i64,
                        },
                        audit: w.audit("wd_debit"@),
                    },
                ),
            )
        },
    }
}

/// The failure of a withdrawal: the funds become spendable again; nothing
/// happens where it had failed or was cancelled before.
pub open spec fn failure(row: Option<WithdrawalView>) -> Result<Option<MovementView>, FundError> {
    match row {
        None => Err(FundError::WithdrawalNotFound),
        Some(w) => if w.status == "failed"@ || w.status == "cancelled"@ {
            Ok(None)
        } else if w.status == "confirmed"@ {
            Err(FundError::AlreadyConfirmed)
        } else {
            Ok(
                Some(
                    MovementView {
                        leg: LegView::Release {
                            user_id: w.user_id,
                            asset: w.asset,
                            atoms: w.total() as i64,
                        },
                        audit: w.audit("wd_release"@),
                    },
                ),
            )
        },
    }
}

pub open spec fn withdrawal_option(row: Option<&WithdrawalRow>) -> Option<WithdrawalView> {
    match row {
        Some(w) => Some(w.view()),
        None => None,
    }
}

/// Confirms a withdrawal that the chain has settled.
pub fn confirm_withdrawal(row: Option<&WithdrawalRow>) -> (r: Result<Option<Movement>, FundError>)
    requires
        confirmation(withdrawal_option(row)) matches Ok(Some(_)) ==> money::fits_i64(
            (row->0).view().total(),
        ),
    ensures
        movement_view(r) == confirmation(withdrawal_option(row)),
{
    let w = match row {
        Some(w) => w,
        None => {
            return Err(FundError::WithdrawalNotFound);
        },
    };
    if text::str_eq(w.status.as_str(), "confirmed") {
        return Ok(None);
    }
    if !text::str_eq(w.status.as_str(), "approved") && !text::str_eq(
        w.status.as_str(),
        "broadcast",
    ) {
        return Err(FundError::NotConfirmable);
    }
    let total = w.amount_atoms + w.fee_atoms;
    Ok(
        Some(
            Movement {
                leg: LedgerLeg::Debit {
                    user_id: w.user_id,
                    asset: text::owned(w.asset.as_str()),
                    atoms: total,
                },
                audit: audit_row(w.user_id, w.asset.as_str(), "wd_debit", total, w.id),
            },
        ),
    )
}

/// Fails a withdrawal that was not sent.
pub fn fail_withdrawal(row: Option<&WithdrawalRow>) -> (r: Result<Option<Movement>, FundError>)
    requires
        failure(withdrawal_option(row)) matches Ok(Some(_)) ==> money::fits_i64(
            (row->0).view().total(),
        ),
    ensures
        movement_view(r) == failure(withdrawal_option(row)),
{
    let w = match row {
        Some(w) => w,
        None => {
            return Err(FundError::WithdrawalNotFound);
        },
    };
    if text::str_eq(w.status.as_str(), "failed") || text::str_eq(w.status.as_str(), "cancelled") {
        return Ok(None);
    }
    if text::str_eq(w.status.as_str(), "confirmed") {
        return Err(FundError::AlreadyConfirmed);
    }
    let total = w.amount_atoms + w.fee_atoms;
    Ok(
        Some(
            Movement {
                leg: LedgerLeg::Release {
                    user_id: w.user_id,
                    asset: text::owned(w.asset.as_str()),
                    atoms: total,
                },
                audit: audit_row(w.user_id, w.asset.as_str(), "wd_release", total, w.id),
            },
        ),
    )
}

/// A withdrawal is debited or released at most once: once it is confirmed it is
/// neither debited again nor released, and once it has failed it is neither
/// released again nor debited.
pub proof fn law_withdrawal_ends_once(w: WithdrawalView)
    ensures
        confirmation(Some(w.with_status("confirmed"@))) == Ok::<Option<MovementView>, FundError>(
            None,
        ),
        failure(Some(w.with_status("confirmed"@))) == Err::<Option<MovementView>, FundError>(
            FundError::AlreadyConfirmed,
        ),
        failure(Some(w.with_status("failed"@))) == Ok::<Option<MovementView>, FundError>(None),
        confirmation(Some(w.with_status("failed"@))) == Err::<Option<MovementView>, FundError>(
            FundError::NotConfirmable,
        ),
{
    reveal_strlit("confirmed");
    reveal_strlit("failed");
    reveal_strlit("approved");
    reveal_strlit("broadcast");
    reveal_strlit("cancelled");
    assert("confirmed"@[0] == 'c' && "confirmed"@.len() == 9);
    assert("cancelled"@[1] == 'a' && "confirmed"@[1] == 'o');
    assert("broadcast"@[0] == 'b');
    assert("failed"@.len() == 6 && "approved"@.len() == 8);
}

/// A withdrawal that fails gives back exactly what its request set aside, and
/// one that is confirmed takes exactly that from the balance.
pub proof fn law_withdrawal_settles_its_freeze(
    ledger: Ledger,
    account: AccountBalance,
    w: WithdrawalView,
    after: AccountBalance,
)
    requires
        requested(Some(account), w.amount_atoms, w.fee_atoms) == Ok::<
            (i64, AccountBalance),
            FundError,
        >((w.total() as i64, after)),
        ledger.contains_key((w.user_id, w.asset)),
        ledger[(w.user_id, w.asset)] == (after.balance_atoms as int, after.frozen_atoms as int),
        failure(Some(w)) is Ok && failure(Some(w))->Ok_0 is Some,
    ensures
        ({
            let key = (w.user_id, w.asset);
            let released = after_leg(ledger, (failure(Some(w))->Ok_0)->0.leg);
            &&& released[key] == (account.balance_atoms as int, account.frozen_atoms as int)
            &&& confirmation(Some(w)) matches Ok(Some(m)) ==> after_leg(ledger, m.leg)[key] == (
                account.balance_atoms - w.total(),
                account.frozen_atoms as int,
            )
        }),
{
}

/// The audit row of what an order sets aside or gives back.
pub open spec fn order_audit(
    user_id: i64,
    asset: Seq<char>,
    kind: Seq<char>,
    amount: AmountAtoms,
) -> AuditView {
    AuditView { user_id, asset, kind, amount_atoms: amount.0, ref_id: 0 }
}

/// Sets aside an amount that the spendable part of a user's account covers.
pub fn freeze_atoms(
    user_id: i64,
    asset: &str,
    account: Option<AccountBalance>,
    amount: AmountAtoms,
) -> (r: Result<(AccountBalance, AuditRow), FundError>)
    ensures
        match r {
            Ok((after, audit)) => {
                &&& amount.0 >= 0
                &&& frozen_account(account, amount.0) == Some(after)
                &&& audit.view() == order_audit(user_id, asset@, "freeze"@, amount)
            },
            Err(e) => if amount.0 < 0 {
                e == FundError::NegativeFreeze
            } else {
                e == FundError::CannotFreeze && frozen_account(account, amount.0) is None
            },
        },
{
    if amount.atoms() < 0 {
        return Err(FundError::NegativeFreeze);
    }
    match freeze(account, amount.atoms()) {
        Some(a) => Ok((a, audit_row(user_id, asset, "freeze", amount.atoms(), 0))),
        None => Err(FundError::CannotFreeze),
    }
}

/// The account after a release, never below zero; an account that does not
/// exist is reported as empty.
pub open spec fn released_account(account: Option<AccountBalance>, amount: i64) -> AccountBalance {
    match account {
        None => AccountBalance { balance_atoms: 0, frozen_atoms: 0 },
        Some(a) => AccountBalance {
            balance_atoms: a.balance_atoms,
            frozen_atoms: if a.frozen_atoms <= amount {
                0
            } else {
                (a.frozen_atoms - amount) as i64
            },
        },
    }
}

/// Gives back frozen funds of a user's account. Without an account nothing
/// happens, and nothing is recorded.
pub fn release_frozen_atoms(
    user_id: i64,
    asset: &str,
    account: Option<AccountBalance>,
    amount: AmountAtoms,
) -> (r: Result<(AccountBalance, Option<AuditRow>), FundError>)
    ensures
        match r {
            Ok((after, audit)) => {
                &&& amount.0 >= 0
                &&& after == released_account(account, amount.0)
                &&& match audit {
                    Some(a) => account is Some && a.view() == order_audit(
                        user_id,
                        asset@,
                        "release"@,
                        amount,
                    ),
                    None => account is None,
                }
            },
            Err(e) => amount.0 < 0 && e == FundError::NegativeRelease,
        },
{
    if amount.atoms() < 0 {
        return Err(FundError::NegativeRelease);
    }
    match account {
        None => Ok((AccountBalance::from_atoms(0, 0), None)),
        Some(a) => {
            let frozen = if a.frozen_atoms <= amount.atoms() {
                0
            } else {
                a.frozen_atoms - amount.atoms()
            };
            Ok(
                (
                    AccountBalance::from_atoms(a.balance_atoms, frozen),
                    Some(audit_row(user_id, asset, "release", amount.atoms(), 0)),
                ),
            )
        },
    }
}

/// A trade moves the quantity from seller to buyer and its cost from buyer to
/// seller: the buyer pays the cost and their fee out of what was frozen, the
/// seller delivers out of what was frozen and is paid the cost less their fee.
/// The cost is price times quantity to the nearest atom.
pub proof fn law_trade_moves_goods_one_way_and_money_the_other(
    ledger: Ledger,
    f: FillParties,
    price: AmountAtoms,
    quantity: AmountAtoms,
    buy_fee: AmountAtoms,
    sell_fee: AmountAtoms,
    a: SettleAmounts,
)
    requires
        settle_amounts(price, quantity, buy_fee, sell_fee) == Ok::<SettleAmounts, SettleError>(a),
        f.base != f.quote,
        f.buyer_id != f.seller_id,
        ledger.contains_key((f.buyer_id, f.quote)),
        ledger.contains_key((f.seller_id, f.base)),
    ensures
        ({
            let after = after_legs(ledger, settle_legs(f, quantity.0, a));
            let cost = a.cost.0;
            &&& cost * 100_000_000 - 50_000_000 <= price.0 * quantity.0 < cost * 100_000_000
                + 50_000_000
            &&& balance_at(after, f.buyer_id, f.base) == balance_at(ledger, f.buyer_id, f.base)
                + quantity.0
            &&& balance_at(after, f.seller_id, f.base) == balance_at(ledger, f.seller_id, f.base)
                - quantity.0
            &&& balance_at(after, f.buyer_id, f.quote) == balance_at(ledger, f.buyer_id, f.quote) - (
            cost + buy_fee.0)
            &&& balance_at(after, f.seller_id, f.quote) == balance_at(ledger, f.seller_id, f.quote)
                + cost - sell_fee.0
            &&& frozen_at(after, f.buyer_id, f.quote) == frozen_at(ledger, f.buyer_id, f.quote) - (
            cost + buy_fee.0)
            &&& frozen_at(after, f.seller_id, f.base) == frozen_at(ledger, f.seller_id, f.base)
                - quantity.0
            &&& frozen_at(after, f.buyer_id, f.base) == frozen_at(ledger, f.buyer_id, f.base)
            &&& frozen_at(after, f.seller_id, f.quote) == frozen_at(ledger, f.seller_id, f.quote)
        }),
{
    money::law_product_is_the_nearest_amount(price.0 as int, quantity.0 as int);
    let legs = settle_legs(f, quantity.0, a);
    let l3 = legs.drop_last();
    let l2 = l3.drop_last();
    let l1 = l2.drop_last();
    assert(l1.drop_last() =~= seq![]);
    reveal_with_fuel(after_legs, 5);
    assert(legs.last() == legs[3] && l3.last() == legs[2] && l2.last() == legs[1] && l1.last()
        == legs[0]);
}

/// A settlement is refused exactly where the fee of the seller is more than the
/// trade is worth, or a figure leaves 64 bits.
pub proof fn law_settlement_is_refused_for_its_fee(
    price: AmountAtoms,
    quantity: AmountAtoms,
    buy_fee: AmountAtoms,
    sell_fee: AmountAtoms,
)
    requires
        0 <= buy_fee.0 <= 0x3fff_ffff_ffff_ffff,
        0 <= sell_fee.0,
        0 <= price.0,
        0 <= quantity.0,
        price.0 * quantity.0 <= 0x3fff_ffff_ffff_ffff * 100_000_000,
    ensures
        settle_amounts(price, quantity, buy_fee, sell_fee) is Ok <==> sell_fee.0
            <= money::scaled_product(price.0 as int, quantity.0 as int),
        settle_amounts(price, quantity, buy_fee, sell_fee) matches Err(e) ==> e
            == SettleError::FeeExceedsCost,
{
    money::law_product_is_the_nearest_amount(price.0 as int, quantity.0 as int);
    assert(price.0 * quantity.0 >= 0) by (nonlinear_arith)
        requires
            price.0 >= 0,
            quantity.0 >= 0,
    ;
}

/// Every movement of a settlement leaves a record of the same user, asset and
/// amount, that says which way it went.
pub proof fn law_audit_mirrors_the_movements(
    f: FillParties,
    quantity: i64,
    a: SettleAmounts,
    ref_id: i64,
    i: int,
)
    requires
        0 <= i < settle_legs(f, quantity, a).len(),
    ensures
        settle_audit(f, quantity, a, ref_id).len() == settle_legs(f, quantity, a).len(),
        ({
            let row = settle_audit(f, quantity, a, ref_id)[i];
            &&& row.ref_id == ref_id
            &&& match settle_legs(f, quantity, a)[i] {
                LegView::Debit { user_id, asset, atoms } => row.user_id == user_id && row.asset
                    == asset && row.amount_atoms == atoms && row.kind == "settle_debit"@,
                LegView::Credit { user_id, asset, atoms } => row.user_id == user_id && row.asset
                    == asset && row.amount_atoms == atoms && row.kind == "settle_credit"@,
                LegView::Release { user_id, asset, atoms } => false,
            }
        }),
{
}

/// Money is frozen exactly where what may be spent covers it, and then only
/// moves from spendable to frozen. A withdrawal freezes its amount and its fee.
pub proof fn law_withdrawal_freezes_amount_and_fee(
    account: Option<AccountBalance>,
    amount: i64,
    fee: i64,
)
    requires
        account matches Some(a) ==> a.frozen_atoms >= 0 && a.balance_atoms >= 0,
    ensures
        requested(account, amount, fee) is Ok <==> amount > 0 && fee >= 0 && (account matches Some(a)
            && a.balance_atoms - a.frozen_atoms >= amount + fee),
        requested(account, amount, fee) matches Ok((total, after)) ==> {
            &&& total == amount + fee
            &&& after.balance_atoms == (account->0).balance_atoms
            &&& after.frozen_atoms == (account->0).frozen_atoms + amount + fee
        },
        requested(account, amount, fee) == Err::<(i64, AccountBalance), FundError>(
            FundError::CannotWithdraw,
        ) ==> amount > 0 && fee >= 0,
{
}

/// A release gives back no more than is frozen and never moves the balance.
pub proof fn law_release_gives_back_what_is_frozen(account: AccountBalance, amount: i64)
    requires
        account.frozen_atoms >= 0,
        amount >= 0,
    ensures
        ({
            let after = released_account(Some(account), amount);
            &&& after.balance_atoms == account.balance_atoms
            &&& 0 <= after.frozen_atoms <= account.frozen_atoms
            &&& amount <= account.frozen_atoms ==> after.frozen_atoms == account.frozen_atoms
                - amount
            &&& amount >= account.frozen_atoms ==> after.frozen_atoms == 0
        }),
        frozen_account(Some(account), amount) matches Some(after) ==> released_account(
            Some(after),
            amount,
        ) == account,
        frozen_account(Some(account), amount) is Some <==> account.balance_atoms
            - account.frozen_atoms >= amount,
        released_account(None, amount) == (AccountBalance { balance_atoms: 0, frozen_atoms: 0 }),
{
}

/// A deposit that is not positive is refused; one that was seen before moves
/// nothing; a new one is credited to its user in its asset and touches nothing
/// else.
pub proof fn law_deposit_reaches_its_user(
    seen: Set<TransferKey>,
    ledger: Ledger,
    key: TransferKey,
    user_id: i64,
    asset: Seq<char>,
    amount: i64,
    other: i64,
    other_asset: Seq<char>,
)
    ensures
        ({
            let (s, l) = after_deposit(seen, ledger, key, user_id, asset, amount);
            &&& amount <= 0 || seen.contains(key) ==> l == ledger && s == seen
            &&& amount > 0 && !seen.contains(key) ==> s == seen.insert(key) && balance_at(
                l,
                user_id,
                asset,
            ) == balance_at(ledger, user_id, asset) + amount && frozen_at(l, user_id, asset)
                == frozen_at(ledger, user_id, asset)
            &&& other != user_id || other_asset != asset ==> balance_at(l, other, other_asset)
                == balance_at(ledger, other, other_asset) && frozen_at(l, other, other_asset)
                == frozen_at(ledger, other, other_asset)
        }),
{
}

/// Whatever can be confirmed can instead still fail; what was only requested
/// cannot be confirmed, and what is confirmed is paid in full.
pub proof fn law_only_approved_withdrawals_are_paid(w: WithdrawalView)
    requires
        money::fits_i64(w.total()),
    ensures
        confirmation(None) is Err && failure(None) is Err,
        confirmation(Some(w)) matches Ok(Some(m)) ==> {
            &&& w.status == "approved"@ || w.status == "broadcast"@
            &&& failure(Some(w)) matches Ok(Some(_))
            &&& m.leg == (LegView::Debit {
                user_id: w.user_id,
                asset: w.asset,
                atoms: (w.amount_atoms + w.fee_atoms) as i64,
            })
            &&& m.audit.amount_atoms == w.amount_atoms + w.fee_atoms && m.audit.user_id == w.user_id
                && m.audit.asset == w.asset && m.audit.ref_id == w.id
        },
        confirmation(Some(w.with_status("approved"@))) matches Ok(Some(_)),
        confirmation(Some(w.with_status("broadcast"@))) matches Ok(Some(_)),
        confirmation(Some(w.with_status("requested"@))) is Err,
        failure(Some(w)) matches Ok(Some(m)) ==> m.leg == (LegView::Release {
            user_id: w.user_id,
            asset: w.asset,
            atoms: (w.amount_atoms + w.fee_atoms) as i64,
        }),
{
    reveal_strlit("approved");
    reveal_strlit("broadcast");
    reveal_strlit("confirmed");
    reveal_strlit("failed");
    reveal_strlit("cancelled");
    reveal_strlit("requested");
    assert("approved"@.len() == 8 && "broadcast"@.len() == 9 && "confirmed"@.len() == 9
        && "failed"@.len() == 6 && "cancelled"@.len() == 9 && "requested"@.len() == 9);
    assert("broadcast"@[0] == 'b' && "confirmed"@[1] == 'o' && "cancelled"@[1] == 'a'
        && "confirmed"@[0] == 'c' && "cancelled"@[0] == 'c' && "requested"@[0] == 'r');
}

/// A new deposit is credited once, and its audit row tells the same user, asset
/// and amount.
pub proof fn law_deposit_is_credited_and_told(user_id: i64, asset: Seq<char>, amount: i64)
    ensures
        amount > 0 ==> (deposit_movement(user_id, asset, amount, true) matches Ok(Some(m)) && m.leg
            == (LegView::Credit { user_id, asset, atoms: amount }) && m.audit.user_id == user_id
            && m.audit.asset == asset && m.audit.amount_atoms == amount && m.audit.kind
            == "deposit"@ && m.audit.ref_id == 0),
        amount > 0 ==> deposit_movement(user_id, asset, amount, false) == Ok::<
            Option<MovementView>,
            FundError,
        >(None),
        amount <= 0 ==> deposit_movement(user_id, asset, amount, true) is Err,
{
}

} // verus!
