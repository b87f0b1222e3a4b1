use themis::account::{Account, AccountError};
use themis::Amount;

fn locked_account() -> Account {
    let mut account = Account::new(1);
    account.deposit(Amount::raw(100)).unwrap();
    account.hold(Amount::raw(100)).unwrap();
    account.chargeback(Amount::raw(100)).unwrap();
    account
}

#[test]
fn test_deposit_on_locked_account_returns_error() {
    let mut account = Account::new(1);
    account.deposit(Amount::raw(100)).unwrap();
    account.hold(Amount::raw(100)).unwrap();
    account.chargeback(Amount::raw(100)).unwrap();
    assert!(matches!(
        account.deposit(Amount::raw(50)),
        Err(AccountError::Locked)
    ));
    assert_eq!(account.available(), 0);
    assert_eq!(account.total(), 0);
}

#[test]
fn test_withdraw_on_locked_account_returns_error() {
    let mut account = Account::new(1);
    account.deposit(Amount::raw(100)).unwrap();
    account.hold(Amount::raw(100)).unwrap();
    account.chargeback(Amount::raw(100)).unwrap();
    assert!(matches!(
        account.withdraw(Amount::raw(50)),
        Err(AccountError::Locked)
    ));
}

#[test]
fn test_chargeback_removes_held_and_total_and_locks() {
    let mut account = Account::new(1);
    account.deposit(Amount::raw(100)).unwrap();
    account.hold(Amount::raw(100)).unwrap();
    account.chargeback(Amount::raw(100)).unwrap();
    assert_eq!(account.held(), Amount::default());
    assert_eq!(account.total(), 0);
    assert!(account.locked());
}

#[test]
fn test_hold_on_locked_account_returns_error() {
    let mut account = Account::new(1);
    account.deposit(Amount::raw(100)).unwrap();
    account.hold(Amount::raw(100)).unwrap();
    account.chargeback(Amount::raw(100)).unwrap();
    assert!(matches!(
        account.hold(Amount::raw(10)),
        Err(AccountError::Locked)
    ));
}

#[test]
fn test_release_on_locked_account_returns_error() {
    let mut account = Account::new(1);
    account.deposit(Amount::raw(100)).unwrap();
    account.hold(Amount::raw(100)).unwrap();
    account.chargeback(Amount::raw(100)).unwrap();
    assert!(matches!(
        account.release(Amount::raw(10)),
        Err(AccountError::Locked)
    ));
}

#[test]
fn test_chargeback_on_locked_account_returns_error() {
    let mut account = Account::new(1);
    account.deposit(Amount::raw(100)).unwrap();
    account.hold(Amount::raw(100)).unwrap();
    account.chargeback(Amount::raw(100)).unwrap();
    assert!(matches!(
        account.chargeback(Amount::raw(10)),
        Err(AccountError::Locked)
    ));
}

#[test]
fn account_withdraw_beyond_available_is_refused_and_changes_nothing() {
    let mut account = Account::new(7);
    account.deposit(Amount::raw(100)).unwrap();
    assert!(matches!(
        account.withdraw(Amount::raw(101)),
        Err(AccountError::InsufficientFunds)
    ));
    assert_eq!(account.available(), 100);
    assert_eq!(account.client(), 7);
}

#[test]
fn account_locked_account_keeps_its_balance() {
    let mut account = locked_account();
    let _ = account.deposit(Amount::raw(5));
    let _ = account.release(Amount::raw(5));
    assert_eq!(account.available(), 0);
    assert_eq!(account.held(), Amount::raw(0));
    assert!(account.locked());
}

#[test]
fn account_release_returns_held_funds() {
    let mut account = Account::new(2);
    account.deposit(Amount::raw(300)).unwrap();
    account.hold(Amount::raw(120)).unwrap();
    assert_eq!(account.available(), 180);
    assert_eq!(account.held(), Amount::raw(120));
    account.release(Amount::raw(120)).unwrap();
    assert_eq!(account.available(), 300);
    assert_eq!(account.held(), Amount::raw(0));
    assert_eq!(account.total(), 300);
}
