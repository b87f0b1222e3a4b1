//! Decides whether commands become accepted events, against a projection.
use vstd::prelude::*;

use crate::account::is_locked_in;
use crate::amount::Amount;
use crate::command::Command;
use crate::event::Event;
use crate::projection::{LedgerProjection, ProjectionModel};
use crate::transaction::{dispute_amount_in, disputed_amount_in};

verus! {

/// The result of evaluating a command against the current ledger state: one
/// accepted event, or nothing.
#[derive(Debug, Clone, Copy, PartialEq, Eq)]
pub enum Decision {
    /// The command passed business validation and should be recorded.
    Apply(Event),
    /// The command is invalid for the current state and should do nothing.
    Ignore,
}

/// What the decider answers for `command` against projection `p`.
///
/// - Deposits and withdrawals with a transaction ID that has a record are ignored.
/// - A deposit to a locked account is ignored.
/// - A withdrawal needs an existing, unlocked account with enough available funds.
/// - A dispute needs a valid deposit owned by the client; a resolve or a
///   chargeback needs a disputed transaction owned by the client; all three
///   are ignored on a locked account.
pub open spec fn decider_decision(p: ProjectionModel, command: Command) -> Decision {
    match command {
        Command::Deposit { client, tx, amount } => {
            if p.transactions.contains_key(tx) || is_locked_in(p.accounts, client) {
                Decision::Ignore
            } else {
                Decision::Apply(Event::Deposited { client, tx, amount })
            }
        },
        Command::Withdrawal { client, tx, amount } => {
            if p.transactions.contains_key(tx) || !p.accounts.contains_key(client)
                || p.accounts[client].locked || p.accounts[client].available < amount@ {
                Decision::Ignore
            } else {
                Decision::Apply(Event::Withdrawn { client, tx, amount })
            }
        },
        Command::Dispute { client, tx } => match dispute_amount_in(p.transactions, client, tx) {
            Some(amount) => if is_locked_in(p.accounts, client) {
                Decision::Ignore
            } else {
                Decision::Apply(Event::DisputeOpened { client, tx, amount })
            },
            None => Decision::Ignore,
        },
        Command::Resolve { client, tx } => match disputed_amount_in(p.transactions, client, tx) {
            Some(amount) => if is_locked_in(p.accounts, client) {
                Decision::Ignore
            } else {
                Decision::Apply(Event::DisputeResolved { client, tx, amount })
            },
            None => Decision::Ignore,
        },
        Command::Chargeback { client, tx } => match disputed_amount_in(p.transactions, client, tx) {
            Some(amount) => if is_locked_in(p.accounts, client) {
                Decision::Ignore
            } else {
                Decision::Apply(Event::ChargedBack { client, tx, amount })
            },
            None => Decision::Ignore,
        },
    }
}

/// Decides whether transaction commands should become accepted ledger events.
///
/// `Decider` owns the business rule checks that need current ledger state:
/// duplicate transaction IDs, locked accounts, available funds, transaction
/// ownership and dispute lifecycle state. It changes no state itself.
pub struct Decider;

impl Decider {
    /// Evaluates `transaction` against the current ledger state.
    pub fn decide(projection: &LedgerProjection, transaction: Command) -> (r: Decision)
        ensures
            r == decider_decision(projection@, transaction),
    {
        match transaction {
            Command::Deposit { client, tx, amount } => {
                if projection.has_record(tx) {
                    Decision::Ignore
                } else {
                    Self::decide_deposit(projection, client, tx, amount)
                }
            },
            Command::Withdrawal { client, tx, amount } => {
                if projection.has_record(tx) {
                    Decision::Ignore
                } else {
                    Self::decide_withdrawal(projection, client, tx, amount)
                }
            },
            Command::Dispute { client, tx } => Self::decide_dispute(projection, client, tx),
            Command::Resolve { client, tx } => Self::decide_resolve(projection, client, tx),
            Command::Chargeback { client, tx } => Self::decide_chargeback(projection, client, tx),
        }
    }

    fn is_locked(projection: &LedgerProjection, client: u16) -> (r: bool)
        ensures
            r == is_locked_in(projection@.accounts, client),
    {
        match projection.account(client) {
            Some(account) => account.locked(),
            None => false,
        }
    }

    fn decide_deposit(projection: &LedgerProjection, client: u16, tx: u32, amount: Amount) -> (r: Decision)
        ensures
            r == (if is_locked_in(projection@.accounts, client) {
                Decision::Ignore
            } else {
                Decision::Apply(Event::Deposited { client, tx, amount })
            }),
    {
        if Self::is_locked(projection, client) {
            return Decision::Ignore;
        }
        Decision::Apply(Event::Deposited { client, tx, amount })
    }

    fn decide_withdrawal(projection: &LedgerProjection, client: u16, tx: u32, amount: Amount) -> (r: Decision)
        ensures
            r == (if !projection@.accounts.contains_key(client)
                || projection@.accounts[client].locked
                || projection@.accounts[client].available < amount@ {
                Decision::Ignore
            } else {
                Decision::Apply(Event::Withdrawn { client, tx, amount })
            }),
    {
        let account = match projection.account(client) {
            Some(account) => account,
            None => return Decision::Ignore,
        };
        if account.locked() || account.available().is_less_than(amount) {
            return Decision::Ignore;
        }
        Decision::Apply(Event::Withdrawn { client, tx, amount })
    }

    fn decide_dispute(projection: &LedgerProjection, client: u16, tx: u32) -> (r: Decision)
        ensures
            r == decider_decision(projection@, Command::Dispute { client, tx }),
    {
        let amount = match projection.record(tx) {
            Some(record) => if record.client == client && record.is_disputable() {
                record.amount
            } else {
                return Decision::Ignore;
            },
            None => return Decision::Ignore,
        };
        if Self::is_locked(projection, client) {
            return Decision::Ignore;
        }
        Decision::Apply(Event::DisputeOpened { client, tx, amount })
    }

    fn decide_resolve(projection: &LedgerProjection, client: u16, tx: u32) -> (r: Decision)
        ensures
            r == decider_decision(projection@, Command::Resolve { client, tx }),
    {
        let amount = match projection.record(tx) {
            Some(record) => if record.client == client && record.state.is_resolvable() {
                record.amount
            } else {
                return Decision::Ignore;
            },
            None => return Decision::Ignore,
        };
        if Self::is_locked(projection, client) {
            return Decision::Ignore;
        }
        Decision::Apply(Event::DisputeResolved { client, tx, amount })
    }

    fn decide_chargeback(projection: &LedgerProjection, client: u16, tx: u32) -> (r: Decision)
        ensures
            r == decider_decision(projection@, Command::Chargeback { client, tx }),
    {
        let amount = match projection.record(tx) {
            Some(record) => if record.client == client && record.state.is_chargebackable() {
                record.amount
            } else {
                return Decision::Ignore;
            },
            None => return Decision::Ignore,
        };
        if Self::is_locked(projection, client) {
            return Decision::Ignore;
        }
        Decision::Apply(Event::ChargedBack { client, tx, amount })
    }
}

} // verus!
