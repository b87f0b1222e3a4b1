use themis::decider::{Decider, Decision};
use themis::processor::{ApplyResult, Processor};
use themis::projection::LedgerProjection;
use themis::{Amount, Command, Event, Ledger};

fn dep(client: u16, tx: u32, amount: u64) -> Command {
    Command::Deposit { client, tx, amount: Amount::raw(amount) }
}

fn wd(client: u16, tx: u32, amount: u64) -> Command {
    Command::Withdrawal { client, tx, amount: Amount::raw(amount) }
}

fn ledger_after(commands: &[Command]) -> Ledger {
    let mut ledger = Ledger::new();
    ledger.ingest(commands);
    ledger
}

#[test]
fn guarantee_replaying_the_log_rebuilds_every_account() {
    let commands = vec![
        dep(1, 1, 500),
        dep(2, 2, 300),
        wd(1, 3, 200),
        Command::Dispute { client: 2, tx: 2 },
        Command::Chargeback { client: 2, tx: 2 },
        dep(2, 4, 10),
        dep(3, 5, 40),
        Command::Dispute { client: 3, tx: 5 },
    ];
    let log = ledger_after(&commands).into_log();
    assert_eq!(log.len(), 7);
    let replayed = Ledger::replay(log.events()).into_accounts();
    let original = ledger_after(&commands).into_accounts();
    for client in 1..=3u16 {
        let a = replayed.get(&client).unwrap();
        let b = original.get(&client).unwrap();
        assert_eq!(a.available().units(), b.available().units());
        assert_eq!(a.held(), b.held());
        assert_eq!(a.locked(), b.locked());
    }
    assert!(replayed.get(&4).is_none());
}

#[test]
fn guarantee_locked_account_never_changes_again() {
    let mut ledger = ledger_after(&[
        dep(1, 1, 100),
        dep(1, 2, 70),
        Command::Dispute { client: 1, tx: 1 },
        Command::Chargeback { client: 1, tx: 1 },
    ]);
    ledger.ingest(&[
        dep(1, 3, 5),
        wd(1, 4, 5),
        Command::Dispute { client: 1, tx: 2 },
        Command::Resolve { client: 1, tx: 2 },
        Command::Chargeback { client: 1, tx: 2 },
    ]);
    let accounts = ledger.into_accounts();
    let account = accounts.get(&1).unwrap();
    assert_eq!(account.available(), 70);
    assert_eq!(account.held(), Amount::raw(0));
    assert!(account.locked());
}

#[test]
fn guarantee_duplicate_ids_change_nothing() {
    let log = ledger_after(&[dep(1, 1, 100), dep(2, 1, 50), wd(1, 1, 10)]).into_log();
    assert_eq!(log.events(), &[Event::Deposited { client: 1, tx: 1, amount: Amount::raw(100) }]);
}

#[test]
fn guarantee_totals_change_only_by_deposits_withdrawals_and_chargebacks() {
    let steps: [(Command, i128); 5] = [
        (dep(1, 1, 100), 100),
        (wd(1, 2, 30), 70),
        (Command::Dispute { client: 1, tx: 1 }, 70),
        (Command::Resolve { client: 1, tx: 1 }, 70),
        (dep(1, 3, 5), 75),
    ];
    let mut ledger = Ledger::new();
    let mut seen = Vec::new();
    for (command, expected) in steps {
        ledger.ingest(&[command]);
        seen.push(expected);
    }
    let accounts = ledger.into_accounts();
    let account = accounts.get(&1).unwrap();
    assert_eq!(account.total().units(), *seen.last().unwrap());

    let accounts = ledger_after(&[
        dep(1, 1, 100),
        Command::Dispute { client: 1, tx: 1 },
        Command::Chargeback { client: 1, tx: 1 },
    ])
    .into_accounts();
    assert_eq!(accounts.get(&1).unwrap().total(), 0);
}

#[test]
fn guarantee_settled_transaction_cannot_be_disputed_again() {
    let accounts = ledger_after(&[
        dep(1, 1, 100),
        Command::Dispute { client: 1, tx: 1 },
        Command::Resolve { client: 1, tx: 1 },
        Command::Dispute { client: 1, tx: 1 },
        Command::Chargeback { client: 1, tx: 1 },
    ])
    .into_accounts();
    let account = accounts.get(&1).unwrap();
    assert_eq!(account.available(), 100);
    assert_eq!(account.held(), Amount::raw(0));
    assert!(!account.locked());
}

#[test]
fn guarantee_ingest_checked_stops_before_a_held_overflow() {
    let commands = [
        dep(1, 1, u64::MAX),
        dep(1, 2, u64::MAX),
        Command::Dispute { client: 1, tx: 1 },
        Command::Dispute { client: 1, tx: 2 },
        dep(1, 3, 1),
    ];
    let mut ledger = Ledger::new();
    assert_eq!(ledger.ingest_checked(&commands), 3);
    let accounts = ledger.into_accounts();
    assert_eq!(accounts.get(&1).unwrap().held(), Amount::raw(u64::MAX));

    let mut fine = Ledger::new();
    assert_eq!(fine.ingest_checked(&commands[..3]), 3);
}

#[test]
fn guarantee_replay_checked_refuses_an_event_without_its_transaction() {
    let events = [
        Event::Deposited { client: 1, tx: 1, amount: Amount::raw(10) },
        Event::DisputeOpened { client: 1, tx: 2, amount: Amount::raw(10) },
    ];
    assert!(Ledger::replay_checked(&events).is_none());
    assert!(Ledger::replay_checked(&events[..1]).is_some());
    let events = [Event::Withdrawn { client: 4, tx: 1, amount: Amount::raw(1) }];
    assert!(Ledger::replay_checked(&events).is_none());
}

#[test]
fn guarantee_processor_applies_what_the_decider_applies() {
    let history = [dep(1, 1, 100), wd(1, 2, 30), dep(2, 3, 10)];
    let candidates = [
        Command::Dispute { client: 1, tx: 1 },
        Command::Dispute { client: 1, tx: 2 },
        Command::Dispute { client: 2, tx: 1 },
        wd(1, 4, 71),
        wd(1, 4, 70),
        dep(2, 3, 1),
        Command::Resolve { client: 1, tx: 1 },
    ];
    for candidate in candidates {
        let mut processor = Processor::new();
        let mut projection = LedgerProjection::new();
        for command in history {
            processor.apply(command);
            if let Decision::Apply(event) = Decider::decide(&projection, command) {
                projection.apply(event);
            }
        }
        let result = processor.apply(candidate);
        match Decider::decide(&projection, candidate) {
            Decision::Apply(event) => {
                assert_eq!(result, ApplyResult::Applied);
                projection.apply(event);
            }
            Decision::Ignore => assert_eq!(result, ApplyResult::Ignored),
        }
        for client in 1..=2u16 {
            let a = processor.account(client).unwrap();
            let b = projection.account(client).unwrap();
            assert_eq!(a.available().units(), b.available().units());
            assert_eq!(a.held(), b.held());
        }
    }
}

#[test]
fn guarantee_zero_withdrawal_by_a_new_client_is_the_exception() {
    let mut processor = Processor::new();
    assert_eq!(processor.apply(wd(5, 1, 0)), ApplyResult::Applied);
    assert_eq!(processor.account(5).unwrap().available(), 0);
    let projection = LedgerProjection::new();
    assert_eq!(Decider::decide(&projection, wd(5, 1, 0)), Decision::Ignore);
}

#[test]
fn guarantee_processor_withdrawal_opens_an_account_even_when_ignored() {
    let mut processor = Processor::new();
    assert_eq!(processor.apply(wd(6, 1, 10)), ApplyResult::Ignored);
    assert!(processor.account(6).is_some());
    let accounts = processor.process(&[dep(7, 2, 1)]);
    assert_eq!(accounts.len(), 2);
}

#[test]
fn guarantee_balances_are_sums_of_the_records() {
    // Deposits 100 (resolved), 40 (disputed), 25 (charged back) and a
    // withdrawal of 30: available = 100 - 30, held = 40.
    let accounts = ledger_after(&[
        dep(1, 1, 100),
        dep(1, 2, 40),
        dep(1, 3, 25),
        wd(1, 4, 30),
        Command::Dispute { client: 1, tx: 1 },
        Command::Resolve { client: 1, tx: 1 },
        Command::Dispute { client: 1, tx: 2 },
        Command::Dispute { client: 1, tx: 3 },
        Command::Chargeback { client: 1, tx: 3 },
    ])
    .into_accounts();
    let account = accounts.get(&1).unwrap();
    assert_eq!(account.available(), 70);
    assert_eq!(account.held(), Amount::raw(40));
    assert_eq!(account.total(), 110);
    assert!(account.locked());
}

#[test]
fn guarantee_bounded_deposits_never_overflow() {
    // Client 1 deposits exactly the largest amount in two parts, disputes
    // both, resolves one and withdraws everything it can.
    let half = u64::MAX / 2;
    let commands = [
        dep(1, 1, half),
        dep(1, 2, u64::MAX - half),
        Command::Dispute { client: 1, tx: 1 },
        Command::Dispute { client: 1, tx: 2 },
        Command::Resolve { client: 1, tx: 1 },
        wd(1, 3, half),
        dep(2, 4, u64::MAX),
        Command::Dispute { client: 2, tx: 4 },
    ];
    let mut ledger = Ledger::new();
    assert_eq!(ledger.ingest_checked(&commands), commands.len());
    let accounts = ledger.into_accounts();
    let one = accounts.get(&1).unwrap();
    assert_eq!(one.available(), 0);
    assert_eq!(one.held(), Amount::raw(u64::MAX - half));
    let two = accounts.get(&2).unwrap();
    assert_eq!(two.held(), Amount::raw(u64::MAX));
}

#[test]
fn guarantee_accounts_come_from_deposits() {
    let accounts = ledger_after(&[
        wd(1, 1, 10),
        Command::Dispute { client: 2, tx: 1 },
        Command::Resolve { client: 3, tx: 1 },
        Command::Chargeback { client: 4, tx: 1 },
        dep(5, 2, 10),
        wd(5, 3, 10),
    ])
    .into_accounts();
    for client in 1..=4u16 {
        assert!(accounts.get(&client).is_none());
    }
    assert_eq!(accounts.get(&5).unwrap().total(), 0);
}

#[test]
fn guarantee_one_command_changes_only_its_client_and_transaction() {
    let history = [dep(1, 1, 100), dep(2, 2, 50)];
    let before = ledger_after(&history);
    let log_before = before.into_log().len();
    let mut commands = history.to_vec();
    commands.push(Command::Dispute { client: 2, tx: 2 });
    let after = ledger_after(&commands);
    let log = after.into_log();
    assert_eq!(log.len(), log_before + 1);
    assert_eq!(
        log.events()[log_before],
        Event::DisputeOpened { client: 2, tx: 2, amount: Amount::raw(50) }
    );
    let accounts = ledger_after(&commands).into_accounts();
    assert_eq!(accounts.get(&1).unwrap().available(), 100);
    assert_eq!(accounts.get(&2).unwrap().held(), Amount::raw(50));
}

#[test]
fn guarantee_locked_account_refuses_every_command() {
    let mut commands = vec![
        dep(1, 1, 100),
        dep(1, 2, 30),
        Command::Dispute { client: 1, tx: 1 },
        Command::Chargeback { client: 1, tx: 1 },
    ];
    let log_len = ledger_after(&commands).into_log().len();
    commands.extend([
        dep(1, 3, 5),
        wd(1, 4, 5),
        Command::Dispute { client: 1, tx: 2 },
        Command::Resolve { client: 1, tx: 1 },
        Command::Chargeback { client: 1, tx: 1 },
    ]);
    assert_eq!(ledger_after(&commands).into_log().len(), log_len);
}

#[test]
fn guarantee_processor_ignored_means_unchanged() {
    let mut processor = Processor::new();
    processor.apply(dep(1, 1, 100));
    assert_eq!(processor.apply(dep(1, 1, 5)), ApplyResult::Ignored);
    assert_eq!(processor.apply(Command::Resolve { client: 1, tx: 1 }), ApplyResult::Ignored);
    assert_eq!(processor.account(1).unwrap().available(), 100);
    assert_eq!(processor.account(1).unwrap().held(), Amount::raw(0));
    assert_eq!(processor.apply(wd(9, 2, 1)), ApplyResult::Ignored);
    assert_eq!(processor.account(9).unwrap().total(), 0);
    assert_eq!(processor.apply(Command::Dispute { client: 1, tx: 1 }), ApplyResult::Applied);
    assert_eq!(processor.account(1).unwrap().held(), Amount::raw(100));
}
