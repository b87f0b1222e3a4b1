//! Input rows to commands.
use vstd::prelude::*;

use crate::amount::{parse_units, Amount};
use crate::command::Command;
use crate::guarantees::{command_client, command_tx};

verus! {

broadcast use crate::amount::group_amount_lemmas;

/// A raw input row, before validation.
///
/// `kind` is the `type` column. `amount` is absent for dispute, resolve and
/// chargeback rows; it stays text until validation so decimal parsing is
/// exact.
pub struct RawEvent {
    pub kind: String,
    pub client: u16,
    pub tx: u32,
    pub amount: Option<String>,
}

/// The amount text of a row, as characters.
pub open spec fn amount_chars(amount: Option<String>) -> Option<Seq<char>> {
    match amount {
        Some(s) => Some(s@),
        None => None,
    }
}

/// The command a row stands for: `deposit` and `withdrawal` rows need an
/// amount that parses; `dispute`, `resolve` and `chargeback` rows ignore the
/// amount column; any other type is invalid.
pub open spec fn row_command(row: RawEvent) -> Option<Command> {
    let client: u16 = row.client;
    let tx: u32 = row.tx;
    if row.kind@ == "deposit"@ || row.kind@ == "withdrawal"@ {
        match amount_chars(row.amount) {
            Some(text) => match parse_units(text) {
                Some(units) => if row.kind@ == "deposit"@ {
                    Some(Command::Deposit { client, tx, amount: Amount::spec_raw(units) })
                } else {
                    Some(Command::Withdrawal { client, tx, amount: Amount::spec_raw(units) })
                },
                None => None,
            },
            None => None,
        }
    } else if row.kind@ == "dispute"@ {
        Some(Command::Dispute { client, tx })
    } else if row.kind@ == "resolve"@ {
        Some(Command::Resolve { client, tx })
    } else if row.kind@ == "chargeback"@ {
        Some(Command::Chargeback { client, tx })
    } else {
        None
    }
}

/// The commands of the valid rows, in order; invalid rows are skipped.
pub open spec fn row_commands(rows: Seq<RawEvent>) -> Seq<Command>
    decreases rows.len(),
{
    if rows.len() == 0 {
        Seq::empty()
    } else {
        match row_command(rows.last()) {
            Some(c) => row_commands(rows.drop_last()).push(c),
            None => row_commands(rows.drop_last()),
        }
    }
}

/// Whether both texts hold the same characters.
fn same_text(a: &str, b: &str) -> (r: bool)
    ensures
        r == (a@ == b@),
{
    let n = a.unicode_len();
    if n != b.unicode_len() {
        return false;
    }
    let mut i: usize = 0;
    while i < n
        invariant
            n == a@.len(),
            n == b@.len(),
            i <= n,
            forall|j: int| 0 <= j < i ==> a@[j] == b@[j],
        decreases n - i,
    {
        if a.get_char(i) != b.get_char(i) {
            return false;
        }
        i = i + 1;
    }
    assert(a@ =~= b@);
    true
}

/// Validates one row, giving the command it stands for.
pub fn command_from_row(row: &RawEvent) -> (r: Result<Command, ()>)
    ensures
        r == match row_command(*row) {
            Some(c) => Ok(c),
            None => Err(()),
        },
{
    let client: u16 = row.client;
    let tx: u32 = row.tx;
    let kind = row.kind.as_str();
    let deposit = same_text(kind, "deposit");
    if deposit || same_text(kind, "withdrawal") {
        let text = match &row.amount {
            Some(text) => text.as_str(),
            None => return Err(()),
        };
        let amount = Amount::parse(text)?;
        if deposit {
            Ok(Command::Deposit { client, tx, amount })
        } else {
            Ok(Command::Withdrawal { client, tx, amount })
        }
    } else if same_text(kind, "dispute") {
        Ok(Command::Dispute { client, tx })
    } else if same_text(kind, "resolve") {
        Ok(Command::Resolve { client, tx })
    } else if same_text(kind, "chargeback") {
        Ok(Command::Chargeback { client, tx })
    } else {
        Err(())
    }
}

impl TryFrom<RawEvent> for Command {
    type Error = ();

    fn try_from(row: RawEvent) -> (r: Result<Command, ()>) {
        command_from_row(&row)
    }
}

impl vstd::std_specs::convert::TryFromSpecImpl<RawEvent> for Command {
    open spec fn obeys_try_from_spec() -> bool {
        true
    }

    open spec fn try_from_spec(row: RawEvent) -> Result<Command, ()> {
        match row_command(row) {
            Some(c) => Ok(c),
            None => Err(()),
        }
    }
}

/// The commands of the rows that stand for one, in order. Rows that do not
/// convert to a known command are skipped.
pub fn commands_from_rows(rows: &[RawEvent]) -> (r: Vec<Command>)
    ensures
        r@ == row_commands(rows@),
{
    let mut commands: Vec<Command> = Vec::new();
    let mut i: usize = 0;
    while i < rows.len()
        invariant
            i <= rows@.len(),
            commands@ == row_commands(rows@.take(i as int)),
        decreases rows@.len() - i,
    {
        proof {
            assert(rows@.take(i + 1).drop_last() =~= rows@.take(i as int));
            assert(rows@.take(i + 1).last() == rows@[i as int]);
        }
        if let Ok(command) = command_from_row(&rows[i]) {
            commands.push(command);
        }
        i = i + 1;
    }
    assert(rows@.take(i as int) =~= rows@);
    commands
}

/// The name of a command's type, as the `type` column writes it.
pub open spec fn command_type(command: Command) -> Seq<char> {
    match command {
        Command::Deposit { .. } => "deposit"@,
        Command::Withdrawal { .. } => "withdrawal"@,
        Command::Dispute { .. } => "dispute"@,
        Command::Resolve { .. } => "resolve"@,
        Command::Chargeback { .. } => "chargeback"@,
    }
}

/// A valid row's command is the row itself: it has the row's type, client
/// and transaction, and a deposit or withdrawal moves the amount that the
/// row's amount text reads as. Every row of a known type is valid, except a
/// deposit or withdrawal whose amount is missing or does not read.
pub proof fn lemma_row_command_is_the_row(row: RawEvent)
    ensures
        row_command(row) matches Some(c) ==> {
            &&& command_type(c) == row.kind@
            &&& command_client(c) == row.client
            &&& command_tx(c) == row.tx
            &&& match c {
                Command::Deposit { amount, .. } => amount_chars(row.amount) matches Some(t)
                    && parse_units(t) == Some(amount@),
                Command::Withdrawal { amount, .. } => amount_chars(row.amount) matches Some(t)
                    && parse_units(t) == Some(amount@),
                _ => true,
            }
        },
        row_command(row) is None <==> {
            ||| (row.kind@ == "deposit"@ || row.kind@ == "withdrawal"@) && !(amount_chars(
                row.amount,
            ) matches Some(t) && parse_units(t) is Some)
            ||| (row.kind@ != "deposit"@ && row.kind@ != "withdrawal"@ && row.kind@ != "dispute"@
                && row.kind@ != "resolve"@ && row.kind@ != "chargeback"@)
        },
{
    reveal_strlit("deposit");
    reveal_strlit("withdrawal");
    reveal_strlit("dispute");
    reveal_strlit("resolve");
    reveal_strlit("chargeback");
}

/// The commands of the valid rows, as a sequence of at most one.
pub open spec fn row_command_seq(row: RawEvent) -> Seq<Command> {
    match row_command(row) {
        Some(c) => seq![c],
        None => Seq::empty(),
    }
}

/// Reading rows keeps their order: the commands of `rows` followed by `row`
/// are those of `rows` followed by that of `row`, and the commands of `row`
/// followed by `rows` are that of `row` followed by those of `rows`.
pub proof fn lemma_row_commands_in_order(row: RawEvent, rows: Seq<RawEvent>)
    ensures
        row_commands(rows.push(row)) == row_commands(rows) + row_command_seq(row),
        row_commands(seq![row] + rows) == row_command_seq(row) + row_commands(rows),
    decreases rows.len(),
{
    assert(rows.push(row).drop_last() =~= rows);
    if rows.len() == 0 {
        assert(seq![row] + rows =~= seq![row]);
        assert(seq![row].drop_last() =~= Seq::<RawEvent>::empty());
        assert(seq![row].last() == row);
        assert(row_commands(Seq::<RawEvent>::empty()) == Seq::<Command>::empty());
        match row_command(row) {
            Some(c) => assert(Seq::<Command>::empty().push(c) =~= seq![c]),
            None => {},
        }
        assert(row_command_seq(row) + Seq::<Command>::empty() =~= row_command_seq(row));
        assert(Seq::<Command>::empty() + row_command_seq(row) =~= row_command_seq(row));
    } else {
        let all = seq![row] + rows;
        assert(all.drop_last() =~= seq![row] + rows.drop_last());
        assert(all.last() == rows.last());
        lemma_row_commands_in_order(row, rows.drop_last());
        let before = row_command_seq(row);
        let mid = row_commands(rows.drop_last());
        assert(row_commands(all) == match row_command(rows.last()) {
            Some(c) => row_commands(all.drop_last()).push(c),
            None => row_commands(all.drop_last()),
        });
        match row_command(rows.last()) {
            Some(c) => {
                assert((before + mid).push(c) =~= before + mid.push(c));
            },
            None => {},
        }
    }
}

} // verus!
