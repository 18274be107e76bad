use desk::account::{Account, AccountManager, Position};
use desk::money::AmountAtoms;
use desk::text_map::TextMap;

fn amt(value: f64) -> AmountAtoms {
    AmountAtoms::from_atoms((value * 1e8).round() as i64)
}

#[test]
fn test_position_operations() {
    let mut pos = Position { quantity: amt(100.0), frozen: amt(0.0) };

    assert_eq!(pos.available(), amt(100.0));
    assert!(pos.freeze(amt(30.0)));
    assert_eq!(pos.available(), amt(70.0));
    assert_eq!(pos.frozen, amt(30.0));

    pos.unfreeze(amt(20.0));
    assert_eq!(pos.frozen, amt(10.0));
    assert_eq!(pos.available(), amt(90.0));
}

#[test]
fn test_account_balance() {
    let account = Account::new(1, amt(10000.0));
    assert_eq!(account.available_balance(), amt(10000.0));
}

#[test]
fn test_account_manager() {
    let mut manager = AccountManager::new();

    assert!(manager.create_account(1, amt(50000.0)).is_ok());
    assert!(manager.create_account(1, amt(10000.0)).is_err());

    assert!(manager.validate_buy_order(1, "BTC", amt(100.0), amt(100.0)).is_ok());
    assert!(manager.validate_buy_order(1, "BTC", amt(100.0), amt(600.0)).is_err());

    assert!(manager.freeze_buy_order(1, amt(100.0), amt(100.0)).is_ok());
    let acc = manager.get_account(1).unwrap();
    assert_eq!(acc.frozen_balance(), amt(10000.0));
    assert_eq!(acc.available_balance(), amt(40000.0));
}

#[test]
fn test_sell_position_validation() {
    let mut manager = AccountManager::new();
    manager.create_account(1, amt(100000.0)).unwrap();

    {
        let account = manager.get_account_mut(1).unwrap();
        account.get_position_mut("BTC").quantity = amt(10.0);
    }

    assert!(manager.validate_sell_order(1, "BTC", amt(5.0)).is_ok());
    assert!(manager.validate_sell_order(1, "BTC", amt(10.0)).is_ok());
    assert!(manager.validate_sell_order(1, "BTC", amt(11.0)).is_err());

    assert!(manager.freeze_sell_order(1, "BTC", amt(5.0)).is_ok());
    let acc = manager.get_account(1).unwrap();
    let pos = acc.get_position("BTC").unwrap();
    assert_eq!(pos.frozen, amt(5.0));
    assert_eq!(pos.available(), amt(5.0));
}

#[test]
fn account_refusals_are_spelled_out() {
    let mut manager = AccountManager::new();
    manager.create_account(7, amt(100.5)).unwrap();
    assert_eq!(manager.create_account(7, amt(1.0)).unwrap_err(), "Account 7 already exists");
    assert_eq!(manager.get_account(8).err().unwrap(), "Account 8 not found");
    assert_eq!(
        manager.validate_buy_order(7, "BTC", amt(50.0), amt(2.5)).unwrap_err(),
        "Insufficient balance: have 100.5, need 125 for 2.5 BTC @ 50"
    );
    assert_eq!(
        manager.validate_sell_order(7, "BTC", amt(1.0)).unwrap_err(),
        "No position in BTC"
    );
    assert_eq!(
        manager.freeze_buy_order(7, amt(50.0), amt(2.5)).unwrap_err(),
        "Insufficient balance to freeze"
    );
    assert_eq!(
        manager.execute_buy(7, "BTC", amt(50.0), amt(1.0)).unwrap_err(),
        "Frozen balance not enough"
    );
    assert_eq!(
        manager.execute_sell(7, "BTC", amt(50.0), amt(1.0)).unwrap_err(),
        "Position not frozen or insufficient"
    );
    assert_eq!(
        manager.freeze_sell_order(7, "BTC", amt(1.0)).unwrap_err(),
        "Insufficient position to freeze"
    );
    // Asking for the position has opened an empty one.
    assert_eq!(
        manager.validate_sell_order(7, "BTC", amt(1.0)).unwrap_err(),
        "Insufficient position: have 0, need 1 of BTC"
    );
}

#[test]
fn account_trade_moves_money_and_quantity() {
    let mut manager = AccountManager::new();
    manager.create_account(1, amt(1000.0)).unwrap();
    manager.create_account(2, amt(0.0)).unwrap();
    manager.get_account_mut(2).unwrap().get_position_mut("ETH").quantity = amt(4.0);

    manager.freeze_buy_order(1, amt(100.0), amt(3.0)).unwrap();
    manager.freeze_sell_order(2, "ETH", amt(3.0)).unwrap();
    manager.execute_buy(1, "ETH", amt(100.0), amt(3.0)).unwrap();
    manager.execute_sell(2, "ETH", amt(100.0), amt(3.0)).unwrap();

    let buyer = manager.get_account(1).unwrap();
    assert_eq!(buyer.balance(), amt(700.0));
    assert_eq!(buyer.frozen_balance(), amt(0.0));
    assert_eq!(buyer.get_position("ETH").unwrap().quantity, amt(3.0));
    let seller = manager.get_account(2).unwrap();
    assert_eq!(seller.balance(), amt(300.0));
    assert_eq!(seller.get_position("ETH").unwrap().quantity, amt(1.0));

    let mut prices: TextMap<AmountAtoms> = TextMap::new();
    prices.insert("ETH", amt(110.0));
    assert_eq!(buyer.total_assets(&prices), Some(amt(1030.0)));
    let mut ids: Vec<u64> = manager.all_accounts().iter().map(|a| a.id()).collect();
    ids.sort_unstable();
    assert_eq!(ids, vec![1, 2]);
}

#[test]
fn account_cancel_gives_back_what_was_held() {
    let mut manager = AccountManager::new();
    manager.create_account(1, amt(1000.0)).unwrap();
    manager.get_account_mut(1).unwrap().get_position_mut("BTC").quantity = amt(2.0);
    manager.freeze_buy_order(1, amt(10.0), amt(7.0)).unwrap();
    manager.cancel_buy_order(1, amt(10.0), amt(7.0)).unwrap();
    assert_eq!(manager.get_account(1).unwrap().available_balance(), amt(1000.0));
    manager.freeze_sell_order(1, "BTC", amt(1.5)).unwrap();
    manager.cancel_sell_order(1, "BTC", amt(1.5)).unwrap();
    assert_eq!(manager.get_account(1).unwrap().get_position("BTC").unwrap().available(), amt(2.0));
    assert_eq!(manager.cancel_buy_order(9, amt(1.0), amt(1.0)).unwrap_err(), "Account 9 not found");
}

#[test]
fn worth_does_not_depend_on_the_order_of_positions() {
    let mut prices = TextMap::new();
    prices.insert("BTC", amt(10.0));
    prices.insert("ETH", amt(3.0));
    let mut a = Account::new(1, amt(100.0));
    assert_eq!(a.total_assets(&prices), Some(amt(100.0)), "a fresh account is its balance");
    a.get_position_mut("BTC").quantity = amt(2.0);
    a.get_position_mut("ETH").quantity = amt(5.0);
    let mut b = Account::new(2, amt(100.0));
    b.get_position_mut("ETH").quantity = amt(5.0);
    b.get_position_mut("BTC").quantity = amt(2.0);
    assert_eq!(a.total_assets(&prices), Some(amt(135.0)));
    assert_eq!(b.total_assets(&prices), a.total_assets(&prices));
}
