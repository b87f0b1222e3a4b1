//! The ledger: decides which commands become events, records events, and
//! rebuilds its state from its log.
use vstd::prelude::*;

use crate::account::{
    accounts_after, accounts_can_apply, can_withdraw_in, is_locked_in, AccountModel, Accounts,
};
use crate::command::Command;
use crate::event::{Decision, Event};
use crate::balances::{balances_follow_records, lemma_empty_ledger_balances, lemma_ingest_keeps_balances};
use crate::event_log::EventLog;
use crate::transaction::{
    disputed_amount_in, dispute_amount_in, txs_after, txs_can_apply, Transaction, Transactions,
};

verus! {

/// The state of a ledger as the contracts see it.
pub ghost struct LedgerModel {
    /// Every accepted event, oldest first.
    pub log: Seq<Event>,
    /// Every recorded transaction, by ID.
    pub transactions: Map<u32, Transaction>,
    /// Every account, by client ID.
    pub accounts: Map<u16, AccountModel>,
}

/// A ledger with no history.
pub open spec fn empty_ledger() -> LedgerModel {
    LedgerModel {
        log: Seq::empty(),
        transactions: Map::empty(),
        accounts: Map::empty(),
    }
}

/// Which event, if any, `command` becomes in state `m`.
///
/// - A deposit or withdrawal whose transaction ID was seen before is denied.
/// - A deposit to a locked account is denied.
/// - A withdrawal needs an unlocked account with enough available funds.
/// - A dispute needs a valid deposit of the same client; a resolve or
///   chargeback needs a disputed transaction of the same client; all three
///   are denied on a locked account.
pub open spec fn decide_spec(m: LedgerModel, command: Command) -> Decision {
    match command {
        Command::Deposit { client, tx, amount } => {
            if m.transactions.contains_key(tx) || is_locked_in(m.accounts, client) {
                Decision::Denied
            } else {
                Decision::Approved(Event::Deposited { client, tx, amount })
            }
        },
        Command::Withdrawal { client, tx, amount } => {
            if m.transactions.contains_key(tx) || !can_withdraw_in(m.accounts, client, amount@ as int) {
                Decision::Denied
            } else {
                Decision::Approved(Event::Withdrawn { client, tx, amount })
            }
        },
        Command::Dispute { client, tx } => match dispute_amount_in(m.transactions, client, tx) {
            Some(amount) => if is_locked_in(m.accounts, client) {
                Decision::Denied
            } else {
                Decision::Approved(Event::DisputeOpened { client, tx, amount })
            },
            None => Decision::Denied,
        },
        Command::Resolve { client, tx } => match disputed_amount_in(m.transactions, client, tx) {
            Some(amount) => if is_locked_in(m.accounts, client) {
                Decision::Denied
            } else {
                Decision::Approved(Event::DisputeResolved { client, tx, amount })
            },
            None => Decision::Denied,
        },
        Command::Chargeback { client, tx } => match disputed_amount_in(m.transactions, client, tx) {
            Some(amount) => if is_locked_in(m.accounts, client) {
                Decision::Denied
            } else {
                Decision::Approved(Event::ChargedBack { client, tx, amount })
            },
            None => Decision::Denied,
        },
    }
}

/// Recording `event` finds what it changes and stays within the ranges of
/// the balances.
pub open spec fn can_record(m: LedgerModel, event: Event) -> bool {
    txs_can_apply(m.transactions, event) && accounts_can_apply(m.accounts, event)
}

/// The state after recording `event`: it is appended to the log and applied
/// to the transactions and the accounts.
pub open spec fn recorded(m: LedgerModel, event: Event) -> LedgerModel {
    LedgerModel {
        log: m.log.push(event),
        transactions: txs_after(m.transactions, event),
        accounts: accounts_after(m.accounts, event),
    }
}

/// Ingesting `command` stays within the ranges of the balances.
pub open spec fn can_step(m: LedgerModel, command: Command) -> bool {
    match decide_spec(m, command) {
        Decision::Approved(event) => can_record(m, event),
        Decision::Denied => true,
    }
}

/// The state after ingesting `command`: an approved command's event is
/// recorded, a denied command changes nothing.
pub open spec fn stepped(m: LedgerModel, command: Command) -> LedgerModel {
    match decide_spec(m, command) {
        Decision::Approved(event) => recorded(m, event),
        Decision::Denied => m,
    }
}

/// The state after ingesting `commands` in order; `None` when one of them
/// would leave the ranges of the balances.
pub open spec fn ingested(m: LedgerModel, commands: Seq<Command>) -> Option<LedgerModel>
    decreases commands.len(),
{
    if commands.len() == 0 {
        Some(m)
    } else if can_step(m, commands[0]) {
        ingested(stepped(m, commands[0]), commands.drop_first())
    } else {
        None
    }
}

/// The state that recording `events` in order builds from an empty ledger;
/// `None` when an event lacks its account or transaction or leaves the
/// ranges of the balances.
pub open spec fn replayed(events: Seq<Event>) -> Option<LedgerModel>
    decreases events.len(),
{
    if events.len() == 0 {
        Some(empty_ledger())
    } else {
        match replayed(events.drop_last()) {
            Some(m) => if can_record(m, events.last()) {
                Some(recorded(m, events.last()))
            } else {
                None
            },
            None => None,
        }
    }
}

/// The log is the sole source of truth: replaying it rebuilds the state.
pub open spec fn log_is_authoritative(m: LedgerModel) -> bool {
    replayed(m.log) == Some(m)
}

/// Processes a stream of transaction commands and maintains account state.
///
/// `Ledger` applies each `Command` to the corresponding account, enforcing
/// all transaction rules:
///
/// - Duplicate transaction IDs are silently ignored.
/// - Only deposits can be disputed; disputes on withdrawals are ignored.
/// - Disputes, resolves, and chargebacks must reference a transaction
///   belonging to the same client.
/// - All operations on locked accounts are silently ignored.
pub struct Ledger {
    log: EventLog,
    transactions: Transactions,
    accounts: Accounts,
}

impl View for Ledger {
    type V = LedgerModel;

    closed spec fn view(&self) -> LedgerModel {
        LedgerModel {
            log: self.log@,
            transactions: self.transactions@,
            accounts: self.accounts@,
        }
    }
}

proof fn lemma_replayed_prefix(events: Seq<Event>, k: int)
    requires
        0 <= k <= events.len(),
        replayed(events) is Some,
    ensures
        replayed(events.take(k)) is Some,
    decreases events.len() - k,
{
    if k < events.len() {
        assert(events.take(events.len() as int) =~= events);
        lemma_replayed_prefix(events.drop_last(), k);
        assert(events.drop_last().take(k) =~= events.take(k));
    } else {
        assert(events.take(k) =~= events);
    }
}

/// A replayed log is the log of the state it builds.
pub proof fn lemma_replayed_log(events: Seq<Event>)
    requires
        replayed(events) is Some,
    ensures
        replayed(events).unwrap().log == events,
    decreases events.len(),
{
    if events.len() > 0 {
        lemma_replayed_log(events.drop_last());
        assert(events.drop_last().push(events.last()) =~= events);
    }
}

impl Ledger {
    /// Creates a new ledger with no accounts or transaction history.
    pub fn new() -> (r: Ledger)
        ensures
            r@ == empty_ledger(),
            log_is_authoritative(r@),
            balances_follow_records(r@),
    {
        proof {
            lemma_empty_ledger_balances();
        }
        let r = Ledger {
            log: EventLog::new(),
            transactions: Transactions::new(),
            accounts: Accounts::new(),
        };
        assert(r@ =~= empty_ledger());
        r
    }

    /// Rebuilds a ledger by replaying previously validated events.
    ///
    /// No validation is performed: events are recorded unconditionally.
    pub fn replay(events: &[Event]) -> (r: Ledger)
        requires
            replayed(events@) is Some,
        ensures
            r@ == replayed(events@).unwrap(),
            r@.log == events@,
            log_is_authoritative(r@),
    {
        let mut ledger = Ledger::new();
        let mut i: usize = 0;
        while i < events.len()
            invariant
                i <= events@.len(),
                replayed(events@) is Some,
                replayed(events@.take(i as int)) == Some(ledger@),
            decreases events@.len() - i,
        {
            proof {
                lemma_replayed_prefix(events@, i + 1);
                assert(events@.take(i + 1).drop_last() =~= events@.take(i as int));
                assert(events@.take(i + 1).last() == events@[i as int]);
            }
            ledger.record(events[i]);
            i = i + 1;
        }
        proof {
            assert(events@.take(i as int) =~= events@);
            lemma_replayed_log(events@);
        }
        ledger
    }

    /// Ingests commands in order, validating each and recording the events
    /// of the approved ones.
    pub fn ingest(&mut self, commands: &[Command])
        requires
            ingested(old(self)@, commands@) is Some,
        ensures
            final(self)@ == ingested(old(self)@, commands@).unwrap(),
            log_is_authoritative(old(self)@) ==> log_is_authoritative(final(self)@),
            balances_follow_records(old(self)@) ==> balances_follow_records(final(self)@),
    {
        let ghost start = self@;
        let mut i: usize = 0;
        assert(commands@.skip(0) =~= commands@);
        while i < commands.len()
            invariant
                i <= commands@.len(),
                ingested(start, commands@) is Some,
                ingested(self@, commands@.skip(i as int)) == ingested(start, commands@),
            decreases commands@.len() - i,
        {
            let command = commands[i];
            proof {
                assert(commands@.skip(i as int)[0] == command);
                assert(commands@.skip(i as int).drop_first() =~= commands@.skip(i + 1));
            }
            self.submit(command);
            i = i + 1;
        }
        proof {
            assert(commands@.skip(i as int) =~= Seq::<Command>::empty());
            if log_is_authoritative(start) {
                lemma_ingest_keeps_log_authoritative(start, commands@);
            }
            if balances_follow_records(start) {
                lemma_ingest_keeps_balances(start, commands@);
            }
        }
    }

    /// Ingests commands in order like `ingest`, but stops before the first
    /// command whose event would leave the ranges of the balances. Returns how
    /// many commands were ingested.
    pub fn ingest_checked(&mut self, commands: &[Command]) -> (n: usize)
        ensures
            n <= commands@.len(),
            ingested(old(self)@, commands@.take(n as int)) == Some(final(self)@),
            n < commands@.len() ==> !can_step(final(self)@, commands@[n as int]),
            log_is_authoritative(old(self)@) ==> log_is_authoritative(final(self)@),
            balances_follow_records(old(self)@) ==> balances_follow_records(final(self)@),
    {
        let ghost start = self@;
        let mut i: usize = 0;
        assert(commands@.take(0) =~= Seq::<Command>::empty());
        while i < commands.len()
            invariant
                i <= commands@.len(),
                start == old(self)@,
                ingested(start, commands@.take(i as int)) == Some(self@),
            decreases commands@.len() - i,
        {
            let command = commands[i];
            if !self.can_submit(&command) {
                proof {
                    if log_is_authoritative(start) {
                        lemma_ingest_keeps_log_authoritative(start, commands@.take(i as int));
                    }
                    if balances_follow_records(start) {
                        lemma_ingest_keeps_balances(start, commands@.take(i as int));
                    }
                }
                return i;
            }
            proof {
                lemma_ingested_push(start, commands@.take(i as int), command);
                assert(commands@.take(i as int).push(command) =~= commands@.take(i + 1));
            }
            self.submit(command);
            i = i + 1;
        }
        proof {
            if log_is_authoritative(start) {
                lemma_ingest_keeps_log_authoritative(start, commands@.take(i as int));
            }
            if balances_follow_records(start) {
                lemma_ingest_keeps_balances(start, commands@.take(i as int));
            }
        }
        i
    }

    /// Rebuilds a ledger from `events` if every event finds what it changes
    /// and stays within the ranges of the balances; `None` otherwise.
    pub fn replay_checked(events: &[Event]) -> (r: Option<Ledger>)
        ensures
            r is Some <==> replayed(events@) is Some,
            r matches Some(l) ==> l@ == replayed(events@).unwrap(),
    {
        let mut ledger = Ledger::new();
        let mut i: usize = 0;
        while i < events.len()
            invariant
                i <= events@.len(),
                replayed(events@.take(i as int)) == Some(ledger@),
            decreases events@.len() - i,
        {
            proof {
                assert(events@.take(i + 1).drop_last() =~= events@.take(i as int));
                assert(events@.take(i + 1).last() == events@[i as int]);
            }
            if !ledger.can_record(&events[i]) {
                proof {
                    lemma_replayed_none_extends(events@, i + 1);
                }
                return None;
            }
            ledger.record(events[i]);
            i = i + 1;
        }
        proof {
            assert(events@.take(i as int) =~= events@);
        }
        Some(ledger)
    }

    /// Consumes the ledger and returns the final account state.
    pub fn into_accounts(self) -> (r: Accounts)
        ensures
            r@ == self@.accounts,
    {
        self.accounts
    }

    /// Consumes the ledger and returns the event log.
    pub fn into_log(self) -> (r: EventLog)
        ensures
            r@ == self@.log,
    {
        self.log
    }

    /// Validates a command against current state and returns a decision.
    /// Borrows the ledger immutably: deciding changes nothing.
    fn decide(&self, command: &Command) -> (r: Decision)
        ensures
            r == decide_spec(self@, *command),
    {
        match command {
            Command::Deposit { client, tx, amount } => {
                if self.transactions.contains(tx) || self.accounts.is_locked(client) {
                    return Decision::Denied;
                }
                Decision::Approved(Event::Deposited { client: *client, tx: *tx, amount: *amount })
            },
            Command::Withdrawal { client, tx, amount } => {
                if self.transactions.contains(tx) || !self.accounts.can_withdraw(client, *amount) {
                    return Decision::Denied;
                }
                Decision::Approved(Event::Withdrawn { client: *client, tx: *tx, amount: *amount })
            },
            Command::Dispute { client, tx } => {
                let amount = match self.transactions.dispute_amount(*client, tx) {
                    Some(amount) => amount,
                    None => return Decision::Denied,
                };
                if self.accounts.is_locked(client) {
                    return Decision::Denied;
                }
                Decision::Approved(Event::DisputeOpened { client: *client, tx: *tx, amount })
            },
            Command::Resolve { client, tx } => {
                let amount = match self.transactions.resolve_amount(*client, tx) {
                    Some(amount) => amount,
                    None => return Decision::Denied,
                };
                if self.accounts.is_locked(client) {
                    return Decision::Denied;
                }
                Decision::Approved(Event::DisputeResolved { client: *client, tx: *tx, amount })
            },
            Command::Chargeback { client, tx } => {
                let amount = match self.transactions.chargeback_amount(*client, tx) {
                    Some(amount) => amount,
                    None => return Decision::Denied,
                };
                if self.accounts.is_locked(client) {
                    return Decision::Denied;
                }
                Decision::Approved(Event::ChargedBack { client: *client, tx: *tx, amount })
            },
        }
    }

    /// Whether recording `event` finds what it changes and stays within the
    /// ranges of the balances.
    fn can_record(&self, event: &Event) -> (r: bool)
        ensures
            r == can_record(self@, *event),
    {
        let finds_tx = match event {
            Event::Deposited { .. } => true,
            Event::Withdrawn { .. } => true,
            Event::DisputeOpened { tx, .. } => self.transactions.contains(tx),
            Event::DisputeResolved { tx, .. } => self.transactions.contains(tx),
            Event::ChargedBack { tx, .. } => self.transactions.contains(tx),
        };
        finds_tx && self.accounts.can_apply(event)
    }

    /// Records an event: appends it to the log and updates both aggregates.
    fn record(&mut self, event: Event)
        requires
            can_record(old(self)@, event),
        ensures
            final(self)@ == recorded(old(self)@, event),
    {
        self.log.append(event);
        self.transactions.apply(event);
        self.accounts.apply(event);
    }

    /// Whether ingesting `command` stays within the ranges of the balances.
    fn can_submit(&self, command: &Command) -> (r: bool)
        ensures
            r == can_step(self@, *command),
    {
        match self.decide(command) {
            Decision::Approved(event) => self.can_record(&event),
            Decision::Denied => true,
        }
    }

    /// Ingests one command.
    fn submit(&mut self, command: Command)
        requires
            can_step(old(self)@, command),
        ensures
            final(self)@ == stepped(old(self)@, command),
    {
        if let Decision::Approved(event) = self.decide(&command) {
            self.record(event);
        }
    }
}

impl Default for Ledger {
    fn default() -> (r: Ledger)
        ensures
            r@ == empty_ledger(),
    {
        Ledger::new()
    }
}

proof fn lemma_ingested_push(m: LedgerModel, commands: Seq<Command>, command: Command)
    requires
        ingested(m, commands) is Some,
        can_step(ingested(m, commands).unwrap(), command),
    ensures
        ingested(m, commands.push(command)) == Some(
            stepped(ingested(m, commands).unwrap(), command),
        ),
    decreases commands.len(),
{
    if commands.len() == 0 {
        let one = commands.push(command);
        assert(one[0] == command);
        assert(one.drop_first() =~= Seq::<Command>::empty());
        assert(ingested(stepped(m, command), one.drop_first()) == Some(stepped(m, command)));
        assert(ingested(m, one) == ingested(stepped(m, command), one.drop_first()));
    } else {
        assert(commands.push(command)[0] == commands[0]);
        assert(commands.push(command).drop_first() =~= commands.drop_first().push(command));
        lemma_ingested_push(stepped(m, commands[0]), commands.drop_first(), command);
    }
}

proof fn lemma_replayed_none_extends(events: Seq<Event>, k: int)
    requires
        0 <= k <= events.len(),
        replayed(events.take(k)) is None,
    ensures
        replayed(events) is None,
    decreases events.len() - k,
{
    if k < events.len() {
        assert(events.take(k + 1).drop_last() =~= events.take(k));
        lemma_replayed_none_extends(events, k + 1);
    } else {
        assert(events.take(k) =~= events);
    }
}

/// Recording a command's event keeps the log authoritative.
proof fn lemma_step_keeps_log_authoritative(m: LedgerModel, command: Command)
    requires
        log_is_authoritative(m),
        can_step(m, command),
    ensures
        log_is_authoritative(stepped(m, command)),
{
    if let Decision::Approved(event) = decide_spec(m, command) {
        assert(m.log.push(event).drop_last() =~= m.log);
    }
}

/// The log is the sole source of truth: if replaying a ledger's log rebuilds
/// the ledger, that still holds after ingesting any commands.
pub proof fn lemma_ingest_keeps_log_authoritative(m: LedgerModel, commands: Seq<Command>)
    requires
        log_is_authoritative(m),
        ingested(m, commands) is Some,
    ensures
        log_is_authoritative(ingested(m, commands).unwrap()),
    decreases commands.len(),
{
    if commands.len() > 0 {
        lemma_step_keeps_log_authoritative(m, commands[0]);
        lemma_ingest_keeps_log_authoritative(stepped(m, commands[0]), commands.drop_first());
    }
}

} // verus!
