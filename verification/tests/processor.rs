use themis::account::Account;
use themis::processor::{ApplyResult, Processor};
use themis::{Amount, Command};


fn processor_with(transactions: Vec<Command>) -> Processor {
    let mut processor = Processor::new();
    for transaction in transactions {
        processor.apply(transaction);
    }
    processor
}

fn account(processor: &Processor, client: u16) -> &Account {
    processor.account(client).expect("account not found")
}

#[test]
fn test_deposit_is_applied() {
    let mut processor = Processor::new();

    let result = processor.apply(Command::Deposit {
        client: 1,
        tx: 1,
        amount: Amount::raw(100),
    });

    assert_eq!(result, ApplyResult::Applied);
    let account = account(&processor, 1);
    assert_eq!(account.available(), 100);
    assert_eq!(account.total(), 100);
}

#[test]
fn test_withdrawal_is_applied() {
    let mut processor = processor_with(vec![Command::Deposit {
        client: 1,
        tx: 1,
        amount: Amount::raw(100),
    }]);

    let result = processor.apply(Command::Withdrawal {
        client: 1,
        tx: 2,
        amount: Amount::raw(20),
    });

    assert_eq!(result, ApplyResult::Applied);
    let account = account(&processor, 1);
    assert_eq!(account.available(), 80);
    assert_eq!(account.total(), 80);
}

#[test]
fn processor_test_duplicate_tx_id_is_ignored() {
    let mut processor = processor_with(vec![Command::Deposit {
        client: 1,
        tx: 1,
        amount: Amount::raw(100),
    }]);

    let result = processor.apply(Command::Deposit {
        client: 1,
        tx: 1,
        amount: Amount::raw(999),
    });

    assert_eq!(result, ApplyResult::Ignored);
    let account = account(&processor, 1);
    assert_eq!(account.available(), 100);
    assert_eq!(account.total(), 100);
}

#[test]
fn processor_test_duplicate_withdrawal_tx_id_is_ignored() {
    let mut processor = processor_with(vec![
        Command::Deposit {
            client: 1,
            tx: 1,
            amount: Amount::raw(100),
        },
        Command::Withdrawal {
            client: 1,
            tx: 2,
            amount: Amount::raw(20),
        },
    ]);

    let result = processor.apply(Command::Withdrawal {
        client: 1,
        tx: 2,
        amount: Amount::raw(20),
    });

    assert_eq!(result, ApplyResult::Ignored);
    let account = account(&processor, 1);
    assert_eq!(account.available(), 80);
    assert_eq!(account.total(), 80);
}

#[test]
fn processor_test_deposit_on_locked_account_is_ignored() {
    let mut processor = processor_with(vec![
        Command::Deposit {
            client: 1,
            tx: 1,
            amount: Amount::raw(100),
        },
        Command::Dispute { client: 1, tx: 1 },
        Command::Chargeback { client: 1, tx: 1 },
    ]);

    let result = processor.apply(Command::Deposit {
        client: 1,
        tx: 2,
        amount: Amount::raw(50),
    });

    assert_eq!(result, ApplyResult::Ignored);
    let account = account(&processor, 1);
    assert_eq!(account.available(), 0);
    assert_eq!(account.total(), 0);
    assert!(account.locked());
}

#[test]
fn processor_test_withdraw_locked_is_silently_ignored() {
    let mut processor = processor_with(vec![
        Command::Deposit {
            client: 1,
            tx: 1,
            amount: Amount::raw(100),
        },
        Command::Dispute { client: 1, tx: 1 },
        Command::Chargeback { client: 1, tx: 1 },
    ]);

    let result = processor.apply(Command::Withdrawal {
        client: 1,
        tx: 2,
        amount: Amount::raw(50),
    });

    assert_eq!(result, ApplyResult::Ignored);
    let account = account(&processor, 1);
    assert_eq!(account.total(), 0);
    assert!(account.locked());
}

#[test]
fn processor_test_dispute_on_withdrawal_is_ignored() {
    let mut processor = processor_with(vec![
        Command::Deposit {
            client: 1,
            tx: 1,
            amount: Amount::raw(100),
        },
        Command::Withdrawal {
            client: 1,
            tx: 2,
            amount: Amount::raw(40),
        },
    ]);

    let result = processor.apply(Command::Dispute { client: 1, tx: 2 });

    assert_eq!(result, ApplyResult::Ignored);
    let account = account(&processor, 1);
    assert_eq!(account.available(), 60);
    assert_eq!(account.held(), Amount::default());
}

#[test]
fn processor_test_dispute_decreases_available_and_increases_held() {
    let mut processor = processor_with(vec![Command::Deposit {
        client: 1,
        tx: 1,
        amount: Amount::raw(100),
    }]);

    let result = processor.apply(Command::Dispute { client: 1, tx: 1 });

    assert_eq!(result, ApplyResult::Applied);
    let account = account(&processor, 1);
    assert_eq!(account.available(), 0);
    assert_eq!(account.held(), Amount::raw(100));
    assert_eq!(account.total(), 100);
}

#[test]
fn processor_test_dispute_on_wrong_client_is_ignored() {
    let mut processor = processor_with(vec![Command::Deposit {
        client: 1,
        tx: 1,
        amount: Amount::raw(100),
    }]);

    let result = processor.apply(Command::Dispute { client: 2, tx: 1 });

    assert_eq!(result, ApplyResult::Ignored);
    let account = account(&processor, 1);
    assert_eq!(account.available(), 100);
    assert_eq!(account.held(), Amount::default());
}

#[test]
fn processor_test_dispute_on_invalid_state_is_ignored() {
    let mut processor = processor_with(vec![
        Command::Deposit {
            client: 1,
            tx: 1,
            amount: Amount::raw(100),
        },
        Command::Dispute { client: 1, tx: 1 },
    ]);

    let result = processor.apply(Command::Dispute { client: 1, tx: 1 });

    assert_eq!(result, ApplyResult::Ignored);
    let account = account(&processor, 1);
    assert_eq!(account.available(), 0);
    assert_eq!(account.held(), Amount::raw(100));
}

#[test]
fn processor_test_dispute_on_locked_account_is_ignored() {
    let mut processor = processor_with(vec![
        Command::Deposit {
            client: 1,
            tx: 1,
            amount: Amount::raw(100),
        },
        Command::Deposit {
            client: 1,
            tx: 2,
            amount: Amount::raw(50),
        },
        Command::Dispute { client: 1, tx: 1 },
        Command::Chargeback { client: 1, tx: 1 },
    ]);

    let result = processor.apply(Command::Dispute { client: 1, tx: 2 });

    assert_eq!(result, ApplyResult::Ignored);
    let account = account(&processor, 1);
    assert_eq!(account.available(), 50);
    assert_eq!(account.held(), Amount::default());
    assert_eq!(account.total(), 50);
    assert!(account.locked());
}

#[test]
fn processor_test_resolve_decreases_held_and_increases_available() {
    let mut processor = processor_with(vec![
        Command::Deposit {
            client: 1,
            tx: 1,
            amount: Amount::raw(100),
        },
        Command::Dispute { client: 1, tx: 1 },
    ]);

    let result = processor.apply(Command::Resolve { client: 1, tx: 1 });

    assert_eq!(result, ApplyResult::Applied);
    let account = account(&processor, 1);
    assert_eq!(account.available(), 100);
    assert_eq!(account.held(), Amount::default());
    assert_eq!(account.total(), 100);
}

#[test]
fn processor_test_resolve_without_dispute_is_ignored() {
    let mut processor = processor_with(vec![Command::Deposit {
        client: 1,
        tx: 1,
        amount: Amount::raw(100),
    }]);

    let result = processor.apply(Command::Resolve { client: 1, tx: 1 });

    assert_eq!(result, ApplyResult::Ignored);
    let account = account(&processor, 1);
    assert_eq!(account.available(), 100);
    assert_eq!(account.held(), Amount::default());
}

#[test]
fn processor_test_resolve_on_wrong_client_is_ignored() {
    let mut processor = processor_with(vec![
        Command::Deposit {
            client: 1,
            tx: 1,
            amount: Amount::raw(100),
        },
        Command::Dispute { client: 1, tx: 1 },
    ]);

    let result = processor.apply(Command::Resolve { client: 2, tx: 1 });

    assert_eq!(result, ApplyResult::Ignored);
    let account = account(&processor, 1);
    assert_eq!(account.available(), 0);
    assert_eq!(account.held(), Amount::raw(100));
}

#[test]
fn processor_test_resolve_on_already_resolved_is_ignored() {
    let mut processor = processor_with(vec![
        Command::Deposit {
            client: 1,
            tx: 1,
            amount: Amount::raw(100),
        },
        Command::Dispute { client: 1, tx: 1 },
        Command::Resolve { client: 1, tx: 1 },
    ]);

    let result = processor.apply(Command::Resolve { client: 1, tx: 1 });

    assert_eq!(result, ApplyResult::Ignored);
    let account = account(&processor, 1);
    assert_eq!(account.available(), 100);
    assert_eq!(account.held(), Amount::default());
}

#[test]
fn processor_test_chargeback_locks_account_and_decreases_held_and_total() {
    let mut processor = processor_with(vec![
        Command::Deposit {
            client: 1,
            tx: 1,
            amount: Amount::raw(100),
        },
        Command::Dispute { client: 1, tx: 1 },
    ]);

    let result = processor.apply(Command::Chargeback { client: 1, tx: 1 });

    assert_eq!(result, ApplyResult::Applied);
    let account = account(&processor, 1);
    assert_eq!(account.available(), 0);
    assert_eq!(account.held(), Amount::default());
    assert_eq!(account.total(), 0);
    assert!(account.locked());
}

#[test]
fn processor_test_chargeback_without_dispute_is_ignored() {
    let mut processor = processor_with(vec![Command::Deposit {
        client: 1,
        tx: 1,
        amount: Amount::raw(100),
    }]);

    let result = processor.apply(Command::Chargeback { client: 1, tx: 1 });

    assert_eq!(result, ApplyResult::Ignored);
    let account = account(&processor, 1);
    assert!(!account.locked());
}

#[test]
fn processor_test_chargeback_on_wrong_client_is_ignored() {
    let mut processor = processor_with(vec![
        Command::Deposit {
            client: 1,
            tx: 1,
            amount: Amount::raw(100),
        },
        Command::Dispute { client: 1, tx: 1 },
    ]);

    let result = processor.apply(Command::Chargeback { client: 2, tx: 1 });

    assert_eq!(result, ApplyResult::Ignored);
    let account = account(&processor, 1);
    assert_eq!(account.held(), Amount::raw(100));
    assert!(!account.locked());
}

#[test]
fn processor_test_chargeback_on_already_chargedback_is_ignored() {
    let mut processor = processor_with(vec![
        Command::Deposit {
            client: 1,
            tx: 1,
            amount: Amount::raw(100),
        },
        Command::Dispute { client: 1, tx: 1 },
        Command::Chargeback { client: 1, tx: 1 },
    ]);

    let result = processor.apply(Command::Chargeback { client: 1, tx: 1 });

    assert_eq!(result, ApplyResult::Ignored);
    let account = account(&processor, 1);
    assert_eq!(account.held(), Amount::default());
    assert_eq!(account.total(), 0);
    assert!(account.locked());
}

#[test]
fn processor_test_resolve_after_withdrawal_is_correct() {
    // Deposit 100, withdraw 80 (total=20), dispute the deposit, resolve.
    let processor = processor_with(vec![
        Command::Deposit {
            client: 1,
            tx: 1,
            amount: Amount::raw(100),
        },
        Command::Withdrawal {
            client: 1,
            tx: 2,
            amount: Amount::raw(80),
        },
        Command::Dispute { client: 1, tx: 1 },
        Command::Resolve { client: 1, tx: 1 },
    ]);
    let account = account(&processor, 1);
    assert_eq!(account.available(), 20);
    assert_eq!(account.held(), Amount::default());
    assert_eq!(account.total(), 20);
}

#[test]
fn processor_test_chargeback_of_deposit_after_withdrawal_total_is_negative() {
    // Deposit 100, withdraw 80 (total=20), dispute the deposit, chargeback.
    // total = 20 - 100 = -80: the account owes the bank the withdrawn funds.
    let processor = processor_with(vec![
        Command::Deposit {
            client: 1,
            tx: 1,
            amount: Amount::raw(100),
        },
        Command::Withdrawal {
            client: 1,
            tx: 2,
            amount: Amount::raw(80),
        },
        Command::Dispute { client: 1, tx: 1 },
        Command::Chargeback { client: 1, tx: 1 },
    ]);
    let account = account(&processor, 1);
    assert_eq!(account.available(), -80);
    assert_eq!(account.held(), Amount::default());
    assert_eq!(account.total(), -80);
    assert!(account.locked());
}
