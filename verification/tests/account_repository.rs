use desk::account_repository::{
    check_deposit, compute_settle_amounts, confirm_withdrawal, credit_chain_deposit,
    fail_withdrawal, freeze_atoms, release_frozen_atoms, request_withdrawal, set_withdrawal_status,
    settle_trade_atoms, withdrawal_audit, FundContext, FundError, LedgerLeg, SettleError, SettleTradeRecord,
    WithdrawalRow,
};
use desk::money::{AccountBalance, AmountAtoms, AmountError};
use std::collections::HashMap;

fn amount(text: &str) -> AmountAtoms {
    AmountAtoms::from_decimal_str(text).unwrap()
}

/// Balance and frozen funds by user and asset.
type Ledger = HashMap<(i64, String), (i64, i64)>;

fn apply(ledger: &mut Ledger, leg: &LedgerLeg) {
    match leg {
        LedgerLeg::Debit { user_id, asset, atoms } => {
            if let Some(a) = ledger.get_mut(&(*user_id, asset.clone())) {
                a.0 -= atoms;
                a.1 -= atoms;
            }
        }
        LedgerLeg::Credit { user_id, asset, atoms } => {
            ledger.entry((*user_id, asset.clone())).or_insert((0, 0)).0 += atoms;
        }
        LedgerLeg::Release { user_id, asset, atoms } => {
            if let Some(a) = ledger.get_mut(&(*user_id, asset.clone())) {
                a.1 -= atoms;
            }
        }
    }
}

#[test]
fn a_settlement_conserves_funds() {
    let mut ledger: Ledger = HashMap::new();
    ledger.insert((1, "USDT".to_string()), (600_000_000_000, 500_000_000_000));
    ledger.insert((2, "BTC".to_string()), (20_000_000, 10_000_000));
    let record = SettleTradeRecord { symbol: "BTC_USDT".to_string(), buy_order_id: 5, sell_order_id: 6 };
    let settlement = settle_trade_atoms(
        1,
        2,
        "BTC",
        "USDT",
        amount("50000"),
        amount("0.1"),
        AmountAtoms::zero(),
        AmountAtoms::zero(),
        Some(&record),
    )
    .unwrap_or_else(|e| panic!("{}", e.message()));
    for leg in &settlement.legs {
        apply(&mut ledger, leg);
    }
    assert_eq!(ledger[&(1, "USDT".to_string())], (100_000_000_000, 0));
    assert_eq!(ledger[&(1, "BTC".to_string())], (10_000_000, 0));
    assert_eq!(ledger[&(2, "BTC".to_string())], (10_000_000, 0));
    assert_eq!(ledger[&(2, "USDT".to_string())], (500_000_000_000, 0));
    assert_eq!(settlement.audit.len(), 4);
    assert_eq!(settlement.audit[0].kind, "settle_debit");
    assert!(settlement.audit.iter().all(|a| a.ref_id == 5));
    assert_eq!(settlement.trade.unwrap().sell_order_id, 6);
    assert_eq!(settlement.price_atoms, 5_000_000_000_000);
    assert_eq!(settlement.quantity_atoms, 10_000_000);
}

#[test]
fn fees_are_added_for_the_buyer_and_taken_from_the_seller() {
    let a = compute_settle_amounts(amount("100"), amount("2"), amount("1.5"), amount("0.5")).unwrap();
    assert_eq!(a.cost, amount("200"));
    assert_eq!(a.buyer_debit, amount("201.5"));
    assert_eq!(a.seller_credit, amount("199.5"));
    assert_eq!(
        compute_settle_amounts(amount("1"), amount("1"), amount("0"), amount("2")).unwrap_err(),
        SettleError::FeeExceedsCost
    );
    let most = AmountAtoms::from_atoms(i64::MAX);
    assert_eq!(
        compute_settle_amounts(most, most, amount("0"), amount("0")).unwrap_err(),
        SettleError::Amount(AmountError::Overflow)
    );
}

#[test]
fn a_deposit_is_credited_once() {
    assert!(check_deposit(1).is_ok());
    assert_eq!(check_deposit(0), Err(FundError::DepositNotPositive));
    let first = match credit_chain_deposit(7, "USDT", 500, true) {
        Ok(Some(m)) => m,
        _ => panic!("a fresh deposit is credited"),
    };
    match &first.leg {
        LedgerLeg::Credit { user_id, asset, atoms } => {
            assert_eq!((*user_id, asset.as_str(), *atoms), (7, "USDT", 500));
        }
        _ => panic!("a deposit is a credit"),
    }
    assert_eq!(first.audit.kind, "deposit");
    assert!(matches!(credit_chain_deposit(7, "USDT", 500, false), Ok(None)));
    assert!(matches!(
        credit_chain_deposit(7, "USDT", 0, true),
        Err(FundError::DepositNotPositive)
    ));
}

#[test]
fn a_withdrawal_sets_amount_and_fee_aside() {
    let account = Some(AccountBalance::from_atoms(1_000, 100));
    assert_eq!(
        request_withdrawal(account, 800, 100),
        Ok((900, AccountBalance::from_atoms(1_000, 1_000)))
    );
    assert_eq!(request_withdrawal(account, 801, 100), Err(FundError::CannotWithdraw));
    assert_eq!(request_withdrawal(None, 1, 0), Err(FundError::CannotWithdraw));
    assert_eq!(request_withdrawal(account, 0, 1), Err(FundError::WithdrawalAmount));
    assert_eq!(request_withdrawal(account, 1, -1), Err(FundError::WithdrawalAmount));
    assert_eq!(request_withdrawal(account, i64::MAX, 1), Err(FundError::TotalOverflow));
}

fn withdrawal(status: &str) -> WithdrawalRow {
    WithdrawalRow {
        id: 3,
        user_id: 7,
        asset: "USDT".to_string(),
        amount_atoms: 800,
        fee_atoms: 100,
        status: status.to_string(),
    }
}

#[test]
fn a_withdrawal_ends_once() {
    let done = match confirm_withdrawal(Some(&withdrawal("broadcast"))) {
        Ok(Some(m)) => m,
        _ => panic!("a broadcast withdrawal is confirmed"),
    };
    assert!(matches!(done.leg, LedgerLeg::Debit { user_id: 7, atoms: 900, .. }));
    assert!(matches!(confirm_withdrawal(Some(&withdrawal("confirmed"))), Ok(None)));
    assert!(matches!(
        confirm_withdrawal(Some(&withdrawal("pending"))),
        Err(FundError::NotConfirmable)
    ));
    assert!(matches!(confirm_withdrawal(None), Err(FundError::WithdrawalNotFound)));

    let failed = match fail_withdrawal(Some(&withdrawal("pending"))) {
        Ok(Some(m)) => m,
        _ => panic!("a pending withdrawal can fail"),
    };
    assert!(matches!(failed.leg, LedgerLeg::Release { user_id: 7, atoms: 900, .. }));
    assert!(matches!(fail_withdrawal(Some(&withdrawal("failed"))), Ok(None)));
    assert!(matches!(
        fail_withdrawal(Some(&withdrawal("confirmed"))),
        Err(FundError::AlreadyConfirmed)
    ));
}

#[test]
fn a_status_moves_once() {
    let mut status = "pending".to_string();
    assert!(set_withdrawal_status(&mut status, "pending", "approved"));
    assert!(!set_withdrawal_status(&mut status, "pending", "approved"));
    assert_eq!(status, "approved");
}

#[test]
fn frozen_funds_are_released_again() {
    let account = Some(AccountBalance::from_atoms(1_000, 0));
    let of = AmountAtoms::from_atoms;
    let (held, audit) = freeze_atoms(7, "USDT", account, of(600)).unwrap();
    assert_eq!(held, AccountBalance::from_atoms(1_000, 600));
    assert_eq!((audit.user_id, audit.kind, audit.amount_atoms, audit.ref_id), (7, "freeze", 600, 0));
    assert_eq!(audit.asset, "USDT");
    let (free, audit) = release_frozen_atoms(7, "USDT", Some(held), of(600)).unwrap();
    assert_eq!(Some(free), account);
    assert_eq!(audit.unwrap().kind, "release");
    let (empty, audit) = release_frozen_atoms(7, "USDT", None, of(600)).unwrap();
    assert_eq!(empty, AccountBalance::from_atoms(0, 0));
    assert!(audit.is_none());
    assert!(matches!(freeze_atoms(7, "USDT", account, of(1_001)), Err(FundError::CannotFreeze)));
    assert!(matches!(freeze_atoms(7, "USDT", account, of(-1)), Err(FundError::NegativeFreeze)));
    assert!(matches!(
        release_frozen_atoms(7, "USDT", account, of(-1)),
        Err(FundError::NegativeRelease)
    ));
}

#[test]
fn a_requested_withdrawal_is_recorded() {
    let row = WithdrawalRow {
        id: 5,
        user_id: 7,
        asset: "USDT".to_string(),
        amount_atoms: 800,
        fee_atoms: 100,
        status: "pending".to_string(),
    };
    let audit = withdrawal_audit(&row);
    assert_eq!((audit.kind, audit.amount_atoms, audit.ref_id), ("wd_freeze", 900, 5));
}

#[test]
fn refusals_say_what_they_are_about() {
    let about =
        FundContext { withdrawal_id: 3, asset: "USDT", status: "pending", amount: amount("12.5") };
    assert_eq!(
        FundError::CannotFreeze.message(&about),
        "Insufficient USDT balance to freeze 12.5"
    );
    assert_eq!(FundError::CannotWithdraw.message(&about), "insufficient USDT balance to withdraw");
    assert_eq!(FundError::WithdrawalNotFound.message(&about), "withdrawal 3 not found");
    assert_eq!(
        FundError::NotConfirmable.message(&about),
        "withdrawal 3 not in a confirmable state (pending)"
    );
}
