use themis::balance::Balance;
use themis::Amount;

#[test]
fn test_deposit_increases_available() {
    let mut b = Balance::new();
    b.deposit(Amount::raw(100));
    assert_eq!(b.available(), 100);
    assert_eq!(b.held(), Amount::default());
    assert_eq!(b.total(), 100);
}

#[test]
fn test_withdraw_decreases_available() {
    let mut b = Balance::new();
    b.deposit(Amount::raw(100));
    assert!(b.withdraw(Amount::raw(40)).is_ok());
    assert_eq!(b.available(), 60);
    assert_eq!(b.total(), 60);
}

#[test]
fn test_withdraw_insufficient_funds_returns_error() {
    let mut b = Balance::new();
    b.deposit(Amount::raw(100));
    assert!(b.withdraw(Amount::raw(200)).is_err());
    assert_eq!(b.available(), 100);
}

#[test]
fn test_hold_moves_available_to_held() {
    let mut b = Balance::new();
    b.deposit(Amount::raw(100));
    b.hold(Amount::raw(40));
    assert_eq!(b.available(), 60);
    assert_eq!(b.held(), Amount::raw(40));
    assert_eq!(b.total(), 100);
}

#[test]
fn test_release_moves_held_to_available() {
    let mut b = Balance::new();
    b.deposit(Amount::raw(100));
    b.hold(Amount::raw(40));
    b.release(Amount::raw(40));
    assert_eq!(b.available(), 100);
    assert_eq!(b.held(), Amount::default());
    assert_eq!(b.total(), 100);
}

#[test]
fn test_chargeback_removes_held_and_decreases_total() {
    let mut b = Balance::new();
    b.deposit(Amount::raw(100));
    b.hold(Amount::raw(100));
    b.chargeback(Amount::raw(100));
    assert_eq!(b.held(), Amount::default());
    assert_eq!(b.total(), 0);
}

#[test]
fn test_chargeback_after_withdrawal_total_is_negative() {
    let mut b = Balance::new();
    b.deposit(Amount::raw(100));
    b.withdraw(Amount::raw(80)).unwrap();
    b.hold(Amount::raw(100));
    b.chargeback(Amount::raw(100));
    assert_eq!(b.available(), -80);
    assert_eq!(b.held(), Amount::default());
    assert_eq!(b.total(), -80);
}

#[test]
fn balance_withdraw_of_exactly_available_leaves_zero() {
    let mut b = Balance::default();
    b.deposit(Amount::raw(55));
    assert!(b.withdraw(Amount::raw(55)).is_ok());
    assert_eq!(b.available(), 0);
    assert!(b.withdraw(Amount::raw(1)).is_err());
}
