//! Properties of the ledger that hold across commands and across its parts.
use vstd::prelude::*;

use crate::account::{account_or_fresh, is_locked_in, AccountModel};
use crate::amount::Amount;
use crate::command::Command;
use crate::decider::{decider_decision, Decision as DeciderDecision};
use crate::event::{Decision, Event};
use crate::ledger::{
    can_record, can_step, decide_spec, empty_ledger, ingested, recorded, stepped, LedgerModel,
};
use crate::processor::{
    processed_all, processed_one, processor_can_apply, with_account, ApplyResult,
};
use crate::projection::{projection_after, projection_can_apply, ProjectionModel};
use crate::transaction::{txs_can_apply, State};

verus! {

/// The command's client.
pub open spec fn command_client(command: Command) -> u16 {
    match command {
        Command::Deposit { client, .. } => client,
        Command::Withdrawal { client, .. } => client,
        Command::Dispute { client, .. } => client,
        Command::Resolve { client, .. } => client,
        Command::Chargeback { client, .. } => client,
    }
}

/// The command's transaction.
pub open spec fn command_tx(command: Command) -> u32 {
    match command {
        Command::Deposit { tx, .. } => tx,
        Command::Withdrawal { tx, .. } => tx,
        Command::Dispute { tx, .. } => tx,
        Command::Resolve { tx, .. } => tx,
        Command::Chargeback { tx, .. } => tx,
    }
}

/// By how much an accepted event changes its account's total.
pub open spec fn total_change(event: Event) -> int {
    match event {
        Event::Deposited { amount, .. } => amount@ as int,
        Event::Withdrawn { amount, .. } => -(amount@ as int),
        Event::DisputeOpened { .. } => 0,
        Event::DisputeResolved { .. } => 0,
        Event::ChargedBack { amount, .. } => -(amount@ as int),
    }
}

/// Every recorded transaction belongs to a client that has an account.
pub open spec fn owners_have_accounts(
    transactions: Map<u32, crate::transaction::Transaction>,
    accounts: Map<u16, AccountModel>,
) -> bool {
    forall|t: u32| #[trigger] transactions.contains_key(t) ==> accounts.contains_key(
        transactions[t].client,
    )
}

/// The events that ingesting `commands` from `m` accepts, in input order.
pub open spec fn approved_events(m: LedgerModel, commands: Seq<Command>) -> Seq<Event>
    decreases commands.len(),
{
    if commands.len() == 0 {
        Seq::empty()
    } else {
        let first = match decide_spec(m, commands[0]) {
            Decision::Approved(e) => seq![e],
            Decision::Denied => Seq::empty(),
        };
        first + approved_events(stepped(m, commands[0]), commands.drop_first())
    }
}

/// Every account was opened by a deposit: a deposit record names its client.
pub open spec fn accounts_come_from_deposits(
    transactions: Map<u32, crate::transaction::Transaction>,
    accounts: Map<u16, AccountModel>,
) -> bool {
    forall|c: u16| #[trigger] accounts.contains_key(c) ==> exists|t: u32| #[trigger]
        transactions.contains_key(t) && transactions[t].client == c && transactions[t].kind is Deposit
}

/// An accepted event concerns the command's client.
proof fn lemma_event_of_command(m: LedgerModel, command: Command)
    ensures
        decide_spec(m, command) matches Decision::Approved(e) ==> e.client() == command_client(
            command,
        ),
{
}

/// A locked account stays locked, and no command changes it: ingesting any
/// commands leaves every locked account exactly as it was.
pub proof fn lemma_locked_account_frozen(m: LedgerModel, commands: Seq<Command>, client: u16)
    requires
        is_locked_in(m.accounts, client),
        ingested(m, commands) is Some,
    ensures
        ingested(m, commands).unwrap().accounts.contains_key(client),
        ingested(m, commands).unwrap().accounts[client] == m.accounts[client],
    decreases commands.len(),
{
    if commands.len() > 0 {
        let next = stepped(m, commands[0]);
        lemma_event_of_command(m, commands[0]);
        assert(next.accounts.contains_key(client) && next.accounts[client] == m.accounts[client]);
        lemma_locked_account_frozen(next, commands.drop_first(), client);
    }
}

/// A deposit or withdrawal that reuses a recorded transaction ID is ignored:
/// the ledger is unchanged.
pub proof fn lemma_duplicate_transaction_ignored(m: LedgerModel, command: Command)
    requires
        match command {
            Command::Deposit { tx, .. } => m.transactions.contains_key(tx),
            Command::Withdrawal { tx, .. } => m.transactions.contains_key(tx),
            _ => false,
        },
    ensures
        decide_spec(m, command) is Denied,
        can_step(m, command),
        stepped(m, command) == m,
{
}

/// A dispute is accepted exactly when it names a never-disputed deposit of
/// the same client whose account is not locked. In particular disputes on
/// withdrawals and on other clients' transactions are ignored.
pub proof fn lemma_dispute_rule(m: LedgerModel, client: u16, tx: u32)
    ensures
        decide_spec(m, Command::Dispute { client, tx }) is Approved <==> {
            &&& m.transactions.contains_key(tx)
            &&& m.transactions[tx].client == client
            &&& m.transactions[tx].kind is Deposit
            &&& m.transactions[tx].state is Valid
            &&& !is_locked_in(m.accounts, client)
        },
{
}

/// A resolve or chargeback is accepted exactly when it names a disputed
/// transaction of the same client whose account is not locked.
pub proof fn lemma_resolve_and_chargeback_rule(m: LedgerModel, client: u16, tx: u32)
    ensures
        decide_spec(m, Command::Resolve { client, tx }) is Approved <==> {
            &&& m.transactions.contains_key(tx)
            &&& m.transactions[tx].client == client
            &&& m.transactions[tx].state is Disputed
            &&& !is_locked_in(m.accounts, client)
        },
        decide_spec(m, Command::Chargeback { client, tx }) is Approved <==> {
            &&& m.transactions.contains_key(tx)
            &&& m.transactions[tx].client == client
            &&& m.transactions[tx].state is Disputed
            &&& !is_locked_in(m.accounts, client)
        },
{
}

/// An accepted event changes only its own account, and changes its total by
/// `total_change`: deposits add, withdrawals and chargebacks subtract, and
/// disputes and resolutions only move funds between available and held. A
/// chargeback locks the account.
pub proof fn lemma_step_totals(m: LedgerModel, command: Command, client: u16)
    requires
        can_step(m, command),
    ensures
        match decide_spec(m, command) {
            Decision::Approved(e) => {
                let after = stepped(m, command).accounts;
                &&& after.contains_key(e.client())
                &&& after[e.client()].total() == account_or_fresh(m.accounts, e.client()).total()
                    + total_change(e)
                &&& after[e.client()].locked == (e is ChargedBack)
                &&& (client != e.client() ==> after.contains_key(client) == m.accounts.contains_key(
                    client,
                ) && after[client] == m.accounts[client])
            },
            Decision::Denied => stepped(m, command) == m,
        },
{
}

/// A transaction whose dispute was resolved or charged back is settled: no
/// command changes its record again.
pub proof fn lemma_settled_transaction_final(m: LedgerModel, commands: Seq<Command>, tx: u32)
    requires
        m.transactions.contains_key(tx),
        m.transactions[tx].state is Resolved || m.transactions[tx].state is Chargedback,
        ingested(m, commands) is Some,
    ensures
        ingested(m, commands).unwrap().transactions.contains_key(tx),
        ingested(m, commands).unwrap().transactions[tx] == m.transactions[tx],
    decreases commands.len(),
{
    if commands.len() > 0 {
        let next = stepped(m, commands[0]);
        assert(next.transactions.contains_key(tx) && next.transactions[tx] == m.transactions[tx]);
        lemma_settled_transaction_final(next, commands.drop_first(), tx);
    }
}

/// The log only grows: ingesting commands appends the accepted events and
/// never rewrites earlier ones.
pub proof fn lemma_ingest_extends_log(m: LedgerModel, commands: Seq<Command>)
    requires
        ingested(m, commands) is Some,
    ensures
        m.log.len() <= ingested(m, commands).unwrap().log.len() <= m.log.len() + commands.len(),
        ingested(m, commands).unwrap().log.take(m.log.len() as int) == m.log,
    decreases commands.len(),
{
    if commands.len() > 0 {
        let next = stepped(m, commands[0]);
        lemma_ingest_extends_log(next, commands.drop_first());
        let end = ingested(m, commands).unwrap().log;
        assert(next.log.take(m.log.len() as int) =~= m.log);
        assert(end.take(m.log.len() as int) =~= next.log.take(m.log.len() as int));
    } else {
        assert(m.log.take(m.log.len() as int) =~= m.log);
    }
}

/// Every recorded transaction's client keeps an account: ingesting commands
/// keeps this true.
pub proof fn lemma_ingest_keeps_owners(m: LedgerModel, commands: Seq<Command>)
    requires
        owners_have_accounts(m.transactions, m.accounts),
        ingested(m, commands) is Some,
    ensures
        owners_have_accounts(
            ingested(m, commands).unwrap().transactions,
            ingested(m, commands).unwrap().accounts,
        ),
    decreases commands.len(),
{
    if commands.len() > 0 {
        let next = stepped(m, commands[0]);
        lemma_event_of_command(m, commands[0]);
        assert forall|t: u32| #[trigger] next.transactions.contains_key(t) implies next.accounts.contains_key(
            next.transactions[t].client,
        ) by {
            if m.transactions.contains_key(t) {
                assert(m.accounts.contains_key(m.transactions[t].client));
            }
        }
        lemma_ingest_keeps_owners(next, commands.drop_first());
    }
}

/// When every recorded transaction's owner has an account, an accepted event
/// always finds its transaction and its account: ingesting a command can only
/// fail by leaving the ranges of the balances.
pub proof fn lemma_accepted_event_finds_targets(m: LedgerModel, command: Command)
    requires
        owners_have_accounts(m.transactions, m.accounts),
    ensures
        decide_spec(m, command) matches Decision::Approved(e) ==> {
            &&& txs_can_apply(m.transactions, e)
            &&& (e is Deposited || m.accounts.contains_key(e.client()))
        },
{
}

/// The decider and the ledger decide alike: on the same transactions and
/// accounts, the decider applies exactly the event the ledger approves.
pub proof fn lemma_decider_agrees_with_ledger(m: LedgerModel, p: ProjectionModel, command: Command)
    requires
        p.transactions == m.transactions,
        p.accounts == m.accounts,
    ensures
        match decide_spec(m, command) {
            Decision::Approved(e) => decider_decision(p, command) == DeciderDecision::Apply(e),
            Decision::Denied => decider_decision(p, command) == DeciderDecision::Ignore,
        },
{
}

/// The projection and the ledger apply events alike: an event the
/// projection accepts is one the ledger can record, with the same resulting
/// transactions and accounts.
pub proof fn lemma_projection_agrees_with_ledger(m: LedgerModel, p: ProjectionModel, event: Event)
    requires
        p.transactions == m.transactions,
        p.accounts == m.accounts,
        projection_can_apply(p, event),
    ensures
        can_record(m, event),
        projection_after(p, event).transactions == recorded(m, event).transactions,
        projection_after(p, event).accounts == recorded(m, event).accounts,
{
}

/// The processor does what the decider decides: when every recorded
/// transaction's owner has an account, processing a command applies exactly
/// the event the decider would apply, and an ignored command changes nothing
/// except that a withdrawal opens an empty account for a new client. (A
/// withdrawal of zero by a client without an account is the exception: the
/// processor opens the account and applies it, the decider ignores it.)
pub proof fn lemma_processor_follows_decider(p: ProjectionModel, command: Command)
    requires
        owners_have_accounts(p.transactions, p.accounts),
        processor_can_apply(p, command),
        !(command matches Command::Withdrawal { client, amount, .. } && amount@ == 0
            && !p.accounts.contains_key(client)),
    ensures
        match decider_decision(p, command) {
            DeciderDecision::Apply(e) => {
                &&& projection_can_apply(p, e)
                &&& processed_one(p, command) == (ApplyResult::Applied, projection_after(p, e))
            },
            DeciderDecision::Ignore => {
                &&& processed_one(p, command).0 == ApplyResult::Ignored
                &&& processed_one(p, command).1 == match command {
                    Command::Withdrawal { client, tx, .. } => if p.transactions.contains_key(tx) {
                        p
                    } else {
                        with_account(p, client)
                    },
                    _ => p,
                }
            },
        },
{
    match command {
        Command::Withdrawal { client, tx, amount } => {
            if !p.transactions.contains_key(tx) && p.accounts.contains_key(client) {
                assert(p.accounts.insert(client, p.accounts[client]) =~= p.accounts);
                assert(with_account(p, client) =~= p);
                let e = Event::Withdrawn { client, tx, amount };
                if decider_decision(p, command) == DeciderDecision::Apply(e) {
                    assert(projection_can_apply(p, e));
                    assert(processed_one(p, command).1 == projection_after(with_account(p, client), e));
                }
            }
        },
        Command::Dispute { client, tx } => {
            if p.transactions.contains_key(tx) {
                assert(p.accounts.contains_key(p.transactions[tx].client));
            }
        },
        Command::Resolve { client, tx } => {
            if p.transactions.contains_key(tx) {
                assert(p.accounts.contains_key(p.transactions[tx].client));
            }
        },
        Command::Chargeback { client, tx } => {
            if p.transactions.contains_key(tx) {
                assert(p.accounts.contains_key(p.transactions[tx].client));
            }
        },
        _ => {},
    }
}

/// A locked account refuses everything: no command naming its client is
/// accepted.
pub proof fn lemma_locked_account_denies(m: LedgerModel, command: Command)
    requires
        is_locked_in(m.accounts, command_client(command)),
    ensures
        decide_spec(m, command) is Denied,
        stepped(m, command) == m,
{
}

/// Ingesting one command is local: the accounts of other clients and the
/// records of other transactions are unchanged, and the log grows by at most
/// one event, which names the command's client and transaction.
pub proof fn lemma_step_is_local(m: LedgerModel, command: Command)
    ensures
        forall|c: u16| c != command_client(command) ==> (#[trigger] stepped(m, command).accounts.contains_key(c)
            <==> m.accounts.contains_key(c)) && stepped(m, command).accounts[c] == m.accounts[c],
        forall|t: u32| t != command_tx(command) ==> (#[trigger] stepped(m, command).transactions.contains_key(t)
            <==> m.transactions.contains_key(t)) && stepped(m, command).transactions[t] == m.transactions[t],
        stepped(m, command).log == m.log || {
            &&& stepped(m, command).log.len() == m.log.len() + 1
            &&& stepped(m, command).log.drop_last() == m.log
            &&& stepped(m, command).log.last().client() == command_client(command)
            &&& stepped(m, command).log.last().tx() == command_tx(command)
        },
{
    if let Decision::Approved(e) = decide_spec(m, command) {
        assert(m.log.push(e).drop_last() =~= m.log);
    }
}

/// One accepted command keeps every account traced to a deposit record.
proof fn lemma_step_keeps_deposit_origins(m: LedgerModel, command: Command)
    requires
        owners_have_accounts(m.transactions, m.accounts),
        accounts_come_from_deposits(m.transactions, m.accounts),
    ensures
        accounts_come_from_deposits(stepped(m, command).transactions, stepped(m, command).accounts),
{
    if let Decision::Approved(e) = decide_spec(m, command) {
        let next = stepped(m, command);
        let t = e.tx();
        lemma_accepted_event_finds_targets(m, command);
        assert forall|c: u16| #[trigger] next.accounts.contains_key(c) implies exists|u: u32| #[trigger]
            next.transactions.contains_key(u) && next.transactions[u].client == c
            && next.transactions[u].kind is Deposit by {
            if m.accounts.contains_key(c) {
                let u = choose|u: u32| #[trigger] m.transactions.contains_key(u)
                    && m.transactions[u].client == c && m.transactions[u].kind is Deposit;
                assert(next.transactions.contains_key(u) && next.transactions[u].client == c
                    && next.transactions[u].kind is Deposit);
            } else {
                assert(e is Deposited);
                assert(next.transactions.contains_key(t) && next.transactions[t].client == c
                    && next.transactions[t].kind is Deposit);
            }
        }
    }
}

/// Accounts come from deposits: when every recorded transaction's owner has
/// an account and every account has a deposit record, ingesting commands
/// keeps both true.
pub proof fn lemma_ingest_keeps_deposit_origins(m: LedgerModel, commands: Seq<Command>)
    requires
        owners_have_accounts(m.transactions, m.accounts),
        accounts_come_from_deposits(m.transactions, m.accounts),
        ingested(m, commands) is Some,
    ensures
        owners_have_accounts(
            ingested(m, commands).unwrap().transactions,
            ingested(m, commands).unwrap().accounts,
        ),
        accounts_come_from_deposits(
            ingested(m, commands).unwrap().transactions,
            ingested(m, commands).unwrap().accounts,
        ),
    decreases commands.len(),
{
    lemma_ingest_keeps_owners(m, commands);
    if commands.len() > 0 {
        let next = stepped(m, commands[0]);
        let first = seq![commands[0]];
        // Ingesting the first command alone yields `next`, which keeps owners.
        assert(first.drop_first() =~= Seq::<Command>::empty());
        assert(ingested(m, first) == ingested(next, first.drop_first()));
        lemma_ingest_keeps_owners(m, first);
        lemma_step_keeps_deposit_origins(m, commands[0]);
        lemma_ingest_keeps_deposit_origins(next, commands.drop_first());
    }
}

/// A ledger built by ingesting commands into a new ledger has an account for
/// a client exactly when a deposit record names that client.
pub proof fn lemma_accounts_come_from_deposits(commands: Seq<Command>)
    requires
        ingested(empty_ledger(), commands) is Some,
    ensures
        forall|c: u16| #[trigger] ingested(empty_ledger(), commands).unwrap().accounts.contains_key(c)
            <==> exists|t: u32| #[trigger] ingested(empty_ledger(), commands).unwrap().transactions.contains_key(t)
            && ingested(empty_ledger(), commands).unwrap().transactions[t].client == c
            && ingested(empty_ledger(), commands).unwrap().transactions[t].kind is Deposit,
{
    let m = ingested(empty_ledger(), commands).unwrap();
    lemma_ingest_keeps_deposit_origins(empty_ledger(), commands);
    assert forall|c: u16| (exists|t: u32| #[trigger] m.transactions.contains_key(t)
        && m.transactions[t].client == c && m.transactions[t].kind is Deposit) implies #[trigger]
        m.accounts.contains_key(c) by {
        let t = choose|t: u32| #[trigger] m.transactions.contains_key(t)
            && m.transactions[t].client == c && m.transactions[t].kind is Deposit;
        assert(m.accounts.contains_key(m.transactions[t].client));
    }
}

/// What the processor answers means what it says: an ignored command leaves
/// every record and every existing account as it was (only a withdrawal may
/// open an empty account for a new client), and an applied command changes
/// the transaction records.
pub proof fn lemma_processor_result(p: ProjectionModel, command: Command)
    ensures
        processed_one(p, command).0 is Ignored ==> {
            let q = processed_one(p, command).1;
            &&& q.transactions == p.transactions
            &&& forall|c: u16| #[trigger] p.accounts.contains_key(c) ==> q.accounts.contains_key(c)
                && q.accounts[c] == p.accounts[c]
            &&& forall|c: u16| #[trigger] q.accounts.contains_key(c) && !p.accounts.contains_key(c)
                ==> command is Withdrawal && c == command_client(command)
                && q.accounts[c] == AccountModel::fresh(c)
        },
        processed_one(p, command).0 is Applied ==> processed_one(p, command).1.transactions
            != p.transactions,
{
    let q = processed_one(p, command).1;
    match command {
        Command::Deposit { tx, .. } => {
            if processed_one(p, command).0 is Applied {
                assert(!p.transactions.contains_key(tx) && q.transactions.contains_key(tx));
            }
        },
        Command::Withdrawal { tx, .. } => {
            if processed_one(p, command).0 is Applied {
                assert(!p.transactions.contains_key(tx) && q.transactions.contains_key(tx));
            }
        },
        Command::Dispute { tx, .. } => {
            if processed_one(p, command).0 is Applied {
                assert(q.transactions[tx].state != p.transactions[tx].state);
            }
        },
        Command::Resolve { tx, .. } => {
            if processed_one(p, command).0 is Applied {
                assert(q.transactions[tx].state != p.transactions[tx].state);
            }
        },
        Command::Chargeback { tx, .. } => {
            if processed_one(p, command).0 is Applied {
                assert(q.transactions[tx].state != p.transactions[tx].state);
            }
        },
    }
}

/// Ingesting appends exactly the accepted events to the log, in input
/// order; denied commands leave no trace.
pub proof fn lemma_ingest_appends_approved_events(m: LedgerModel, commands: Seq<Command>)
    requires
        ingested(m, commands) is Some,
    ensures
        ingested(m, commands).unwrap().log == m.log + approved_events(m, commands),
    decreases commands.len(),
{
    if commands.len() == 0 {
        assert(m.log + Seq::<Event>::empty() =~= m.log);
    } else {
        let next = stepped(m, commands[0]);
        lemma_ingest_appends_approved_events(next, commands.drop_first());
        let rest = approved_events(next, commands.drop_first());
        if let Decision::Approved(e) = decide_spec(m, commands[0]) {
            assert(next.log + rest =~= m.log + (seq![e] + rest));
        } else {
            assert(m.log + (Seq::<Event>::empty() + rest) =~= m.log + rest);
        }
    }
}

/// A deposit is accepted exactly when its transaction ID is new and the
/// client's account, if any, is not locked; it is then recorded as given.
/// The ledger, the decider and the processor all follow this rule.
pub proof fn lemma_deposit_rule(m: LedgerModel, p: ProjectionModel, client: u16, tx: u32, amount: Amount)
    ensures
        decide_spec(m, Command::Deposit { client, tx, amount }) is Approved <==> !m.transactions.contains_key(tx)
            && !(m.accounts.contains_key(client) && m.accounts[client].locked),
        decide_spec(m, Command::Deposit { client, tx, amount }) matches Decision::Approved(e) ==> e
            == (Event::Deposited { client, tx, amount }),
        decider_decision(p, Command::Deposit { client, tx, amount }) is Apply <==> !p.transactions.contains_key(tx)
            && !(p.accounts.contains_key(client) && p.accounts[client].locked),
        decider_decision(p, Command::Deposit { client, tx, amount }) matches DeciderDecision::Apply(e)
            ==> e == (Event::Deposited { client, tx, amount }),
        processed_one(p, Command::Deposit { client, tx, amount }).0 is Applied <==> !p.transactions.contains_key(tx)
            && !(p.accounts.contains_key(client) && p.accounts[client].locked),
        processed_one(p, Command::Deposit { client, tx, amount }).0 is Applied ==> processed_one(
            p,
            Command::Deposit { client, tx, amount },
        ).1 == projection_after(p, Event::Deposited { client, tx, amount }),
{
}

/// A withdrawal is accepted by the ledger and the decider exactly when its
/// transaction ID is new and the client has an unlocked account with at
/// least the amount available; the processor treats a client without an
/// account as one with an empty account.
pub proof fn lemma_withdrawal_rule(m: LedgerModel, p: ProjectionModel, client: u16, tx: u32, amount: Amount)
    ensures
        decide_spec(m, Command::Withdrawal { client, tx, amount }) is Approved <==> {
            &&& !m.transactions.contains_key(tx)
            &&& m.accounts.contains_key(client)
            &&& !m.accounts[client].locked
            &&& m.accounts[client].available >= amount@
        },
        decide_spec(m, Command::Withdrawal { client, tx, amount }) matches Decision::Approved(e) ==> e
            == (Event::Withdrawn { client, tx, amount }),
        decider_decision(p, Command::Withdrawal { client, tx, amount }) is Apply <==> {
            &&& !p.transactions.contains_key(tx)
            &&& p.accounts.contains_key(client)
            &&& !p.accounts[client].locked
            &&& p.accounts[client].available >= amount@
        },
        decider_decision(p, Command::Withdrawal { client, tx, amount }) matches DeciderDecision::Apply(e)
            ==> e == (Event::Withdrawn { client, tx, amount }),
        processed_one(p, Command::Withdrawal { client, tx, amount }).0 is Applied <==> {
            &&& !p.transactions.contains_key(tx)
            &&& p.accounts.contains_key(client) ==> !p.accounts[client].locked
                && p.accounts[client].available >= amount@
            &&& !p.accounts.contains_key(client) ==> amount@ == 0
        },
{
}

/// Processing commands is applying them one at a time, in input order:
/// processing `commands` and then `command` is processing them all.
pub proof fn lemma_process_in_order(p: ProjectionModel, commands: Seq<Command>, command: Command)
    ensures
        processed_all(p, commands.push(command)) == match processed_all(p, commands) {
            Some(q) => if processor_can_apply(q, command) {
                Some(processed_one(q, command).1)
            } else {
                None
            },
            None => None,
        },
        processed_all(p, seq![command] + commands) == if processor_can_apply(p, command) {
            processed_all(processed_one(p, command).1, commands)
        } else {
            None
        },
    decreases commands.len(),
{
    let all = seq![command] + commands;
    assert(all[0] == command);
    assert(all.drop_first() =~= commands);
    if commands.len() == 0 {
        assert(commands.push(command) =~= seq![command]);
        assert(seq![command].drop_first() =~= Seq::<Command>::empty());
    } else {
        let longer = commands.push(command);
        assert(longer[0] == commands[0]);
        assert(longer.drop_first() =~= commands.drop_first().push(command));
        if processor_can_apply(p, commands[0]) {
            lemma_process_in_order(processed_one(p, commands[0]).1, commands.drop_first(), command);
        }
    }
}

/// Ingesting commands is ingesting them one at a time, in input order:
/// ingesting `commands` and then `command` is ingesting them all.
pub proof fn lemma_ingest_in_order(m: LedgerModel, commands: Seq<Command>, command: Command)
    ensures
        ingested(m, commands.push(command)) == match ingested(m, commands) {
            Some(n) => if can_step(n, command) {
                Some(stepped(n, command))
            } else {
                None
            },
            None => None,
        },
        ingested(m, seq![command] + commands) == if can_step(m, command) {
            ingested(stepped(m, command), commands)
        } else {
            None
        },
    decreases commands.len(),
{
    let all = seq![command] + commands;
    assert(all[0] == command);
    assert(all.drop_first() =~= commands);
    if commands.len() == 0 {
        assert(commands.push(command) =~= seq![command]);
        assert(seq![command].drop_first() =~= Seq::<Command>::empty());
    } else {
        let longer = commands.push(command);
        assert(longer[0] == commands[0]);
        assert(longer.drop_first() =~= commands.drop_first().push(command));
        if can_step(m, commands[0]) {
            lemma_ingest_in_order(stepped(m, commands[0]), commands.drop_first(), command);
        }
    }
}

} // verus!
