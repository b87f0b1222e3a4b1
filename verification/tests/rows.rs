use themis::account::Accounts;
use themis::csv::reader::command_from_row;
use themis::csv::writer::all_totals_fit;
use themis::csv::{commands_from_rows, output_rows, RawEvent};
use themis::{Amount, Command, Ledger};

fn row(kind: &str, client: u16, tx: u32, amount: Option<&str>) -> RawEvent {
    RawEvent {
        kind: kind.to_string(),
        client,
        tx,
        amount: amount.map(|a| a.to_string()),
    }
}

fn accounts_from(commands: Vec<Command>) -> Accounts {
    let mut ledger = Ledger::new();
    ledger.ingest(&commands);
    ledger.into_accounts()
}

#[test]
fn rows_deposit_and_withdrawal_parse_their_amount() {
    assert_eq!(
        command_from_row(&row("deposit", 1, 1, Some("1.5"))),
        Ok(Command::Deposit { client: 1, tx: 1, amount: Amount::raw(15000) })
    );
    assert_eq!(
        command_from_row(&row("withdrawal", 2, 3, Some("0.0001"))),
        Ok(Command::Withdrawal { client: 2, tx: 3, amount: Amount::raw(1) })
    );
}

#[test]
fn rows_dispute_resolve_chargeback_ignore_the_amount() {
    assert_eq!(
        command_from_row(&row("dispute", 1, 1, None)),
        Ok(Command::Dispute { client: 1, tx: 1 })
    );
    assert_eq!(
        command_from_row(&row("resolve", 1, 1, Some("9"))),
        Ok(Command::Resolve { client: 1, tx: 1 })
    );
    assert_eq!(
        command_from_row(&row("chargeback", 1, 1, None)),
        Ok(Command::Chargeback { client: 1, tx: 1 })
    );
}

#[test]
fn rows_invalid_rows_are_refused() {
    assert_eq!(command_from_row(&row("badtype", 1, 1, Some("1.0"))), Err(()));
    assert_eq!(command_from_row(&row("deposit", 1, 1, None)), Err(()));
    assert_eq!(command_from_row(&row("deposit", 1, 1, Some("1.23456"))), Err(()));
    assert_eq!(command_from_row(&row("Deposit", 1, 1, Some("1"))), Err(()));
    assert_eq!(
        Command::try_from(row("withdrawal", 1, 1, Some("-1"))),
        Err(())
    );
}

#[test]
fn rows_invalid_rows_are_skipped_in_order() {
    let rows = vec![
        row("badtype", 1, 1, Some("1.0")),
        row("deposit", 1, 2, Some("1.0")),
        row("deposit", 1, 3, Some("1.23456")),
        row("dispute", 1, 2, None),
    ];
    assert_eq!(
        commands_from_rows(&rows),
        vec![
            Command::Deposit { client: 1, tx: 2, amount: Amount::raw(10000) },
            Command::Dispute { client: 1, tx: 2 },
        ]
    );
}

#[test]
fn rows_large_amount_keeps_its_value() {
    let commands = commands_from_rows(&[row("deposit", 1, 1, Some("922337203685477.5808"))]);
    match commands[0] {
        Command::Deposit { amount, .. } => assert_eq!(amount.to_string(), "922337203685477.5808"),
        _ => unreachable!(),
    }
}

#[test]
fn rows_output_shows_each_account_sorted_by_client() {
    let accounts = accounts_from(vec![
        Command::Deposit { client: 2, tx: 1, amount: Amount::raw(10000) },
        Command::Deposit { client: 1, tx: 2, amount: Amount::raw(20000) },
        Command::Withdrawal { client: 1, tx: 3, amount: Amount::raw(5000) },
        Command::Dispute { client: 2, tx: 1 },
    ]);
    assert!(all_totals_fit(&accounts));
    let rows = output_rows(&accounts);
    assert_eq!(rows.len(), 2);
    assert_eq!(rows[0].client, 1);
    assert_eq!(rows[0].available, "1.5000");
    assert_eq!(rows[0].held, "0.0000");
    assert_eq!(rows[0].total, "1.5000");
    assert!(!rows[0].locked);
    assert_eq!(rows[1].client, 2);
    assert_eq!(rows[1].available, "0.0000");
    assert_eq!(rows[1].held, "1.0000");
    assert_eq!(rows[1].total, "1.0000");
}

#[test]
fn rows_output_of_negative_locked_account() {
    let accounts = accounts_from(vec![
        Command::Deposit { client: 9, tx: 1, amount: Amount::raw(1000000) },
        Command::Withdrawal { client: 9, tx: 2, amount: Amount::raw(800000) },
        Command::Dispute { client: 9, tx: 1 },
        Command::Chargeback { client: 9, tx: 1 },
    ]);
    let rows = output_rows(&accounts);
    assert_eq!(rows.len(), 1);
    assert_eq!(rows[0].available, "-80.0000");
    assert_eq!(rows[0].total, "-80.0000");
    assert!(rows[0].locked);
}

#[test]
fn rows_no_accounts_no_rows() {
    let accounts = Accounts::new();
    assert!(output_rows(&accounts).is_empty());
}

#[test]
fn rows_type_must_match_exactly() {
    assert_eq!(command_from_row(&row("deposits", 1, 1, Some("1"))), Err(()));
    assert_eq!(command_from_row(&row("deposi", 1, 1, Some("1"))), Err(()));
    assert_eq!(command_from_row(&row("", 1, 1, Some("1"))), Err(()));
    assert_eq!(command_from_row(&row(" dispute", 1, 1, None)), Err(()));
    assert_eq!(command_from_row(&row("disputé", 1, 1, None)), Err(()));
    assert_eq!(
        command_from_row(&row("deposit", 1, 1, Some(" 1 "))),
        Ok(Command::Deposit { client: 1, tx: 1, amount: Amount::raw(10000) })
    );
}
