use themis::projection::{AccountProjection, LedgerProjection, TransactionProjection};
use themis::transaction::{Kind, State};
use themis::{Amount, Event};


fn deposit_event(client: u16, tx: u32, amount: u64) -> Event {
    Event::Deposited {
        client,
        tx,
        amount: Amount::raw(amount),
    }
}

fn withdrawal_event(client: u16, tx: u32, amount: u64) -> Event {
    Event::Withdrawn {
        client,
        tx,
        amount: Amount::raw(amount),
    }
}

fn account_projection_with(actions: impl FnOnce(&mut AccountProjection)) -> AccountProjection {
    let mut projection = AccountProjection::default();
    actions(&mut projection);
    projection
}

fn transaction_projection_with(
    actions: impl FnOnce(&mut TransactionProjection),
) -> TransactionProjection {
    let mut projection = TransactionProjection::default();
    actions(&mut projection);
    projection
}

fn ledger_projection_with(events: &[Event]) -> LedgerProjection {
    let mut projection = LedgerProjection::default();
    for event in events {
        projection.apply(*event);
    }
    projection
}

#[test]
fn test_account_projection_deposit_creates_account_and_increases_available() {
    let projection = account_projection_with(|projection| {
        projection.deposit(1, Amount::raw(100));
    });

    let account = projection.account(1).expect("account not found");
    assert_eq!(account.available(), 100);
    assert_eq!(account.held(), Amount::default());
    assert_eq!(account.total(), 100);
}

#[test]
fn test_account_projection_withdrawal_decreases_available() {
    let projection = account_projection_with(|projection| {
        projection.deposit(1, Amount::raw(100));
        projection.withdrawal(1, Amount::raw(40));
    });

    let account = projection.account(1).expect("account not found");
    assert_eq!(account.available(), 60);
    assert_eq!(account.total(), 60);
}

#[test]
fn test_account_projection_dispute_and_resolve_move_funds_between_available_and_held() {
    let projection = account_projection_with(|projection| {
        projection.deposit(1, Amount::raw(100));
        projection.dispute(1, Amount::raw(100));
        projection.resolve(1, Amount::raw(100));
    });

    let account = projection.account(1).expect("account not found");
    assert_eq!(account.available(), 100);
    assert_eq!(account.held(), Amount::default());
    assert_eq!(account.total(), 100);
}

#[test]
fn test_account_projection_chargeback_after_withdrawal_can_make_total_negative() {
    let projection = account_projection_with(|projection| {
        projection.deposit(1, Amount::raw(100));
        projection.withdrawal(1, Amount::raw(80));
        projection.dispute(1, Amount::raw(100));
        projection.chargeback(1, Amount::raw(100));
    });

    let account = projection.account(1).expect("account not found");
    assert_eq!(account.available(), -80);
    assert_eq!(account.held(), Amount::default());
    assert_eq!(account.total(), -80);
    assert!(account.locked());
}

#[test]
fn test_transaction_projection_records_deposit_and_withdrawal_kinds() {
    let projection = transaction_projection_with(|projection| {
        projection.deposit(1, 1, Amount::raw(100));
        projection.withdrawal(1, 2, Amount::raw(40));
    });

    let deposit = projection.record(1).expect("deposit record not found");
    assert_eq!(deposit.client, 1);
    assert_eq!(deposit.amount, Amount::raw(100));
    assert!(matches!(deposit.kind, Kind::Deposit));
    assert!(matches!(deposit.state, State::Valid));

    let withdrawal = projection.record(2).expect("withdrawal record not found");
    assert_eq!(withdrawal.client, 1);
    assert_eq!(withdrawal.amount, Amount::raw(40));
    assert!(matches!(withdrawal.kind, Kind::Withdrawal));
    assert!(matches!(withdrawal.state, State::Valid));
}

#[test]
fn test_transaction_projection_tracks_dispute_lifecycle() {
    let projection = transaction_projection_with(|projection| {
        projection.deposit(1, 1, Amount::raw(100));
        projection.dispute(1);
        projection.resolve(1);
    });

    let record = projection.record(1).expect("record not found");
    assert!(matches!(record.state, State::Resolved));
}

#[test]
fn test_transaction_projection_tracks_chargeback_lifecycle() {
    let projection = transaction_projection_with(|projection| {
        projection.deposit(1, 1, Amount::raw(100));
        projection.dispute(1);
        projection.chargeback(1);
    });

    let record = projection.record(1).expect("record not found");
    assert!(matches!(record.state, State::Chargedback));
}

#[test]
fn test_ledger_projection_applies_events_to_both_subprojections() {
    let projection =
        ledger_projection_with(&[deposit_event(1, 1, 100), withdrawal_event(1, 2, 40)]);

    let account = projection.account(1).expect("account not found");
    assert_eq!(account.available(), 60);
    assert_eq!(account.total(), 60);

    let record = projection.record(2).expect("record not found");
    assert!(matches!(record.kind, Kind::Withdrawal));
    assert!(matches!(record.state, State::Valid));
}
