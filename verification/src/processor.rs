//! Applies commands directly to a ledger projection.
use std::collections::HashMap;

use vstd::prelude::*;

use crate::account::{account_models, account_or_fresh, is_locked_in, Account};
use crate::amount::Amount;
use crate::command::Command;
use crate::event::Event;
use crate::projection::{
    empty_projection, projection_after, LedgerProjection, ProjectionModel,
};
use crate::transaction::{disputed_amount_in, dispute_amount_in, with_state, State};

verus! {

/// Whether a command changed the state.
#[derive(Debug, Clone, Copy, PartialEq, Eq)]
pub enum ApplyResult {
    Applied,
    Ignored,
}

/// `p` with a fresh account for `client` unless it has one.
pub open spec fn with_account(p: ProjectionModel, client: u16) -> ProjectionModel {
    ProjectionModel {
        accounts: p.accounts.insert(client, account_or_fresh(p.accounts, client)),
        ..p
    }
}

/// Processing `command` stays within the ranges of the balances.
pub open spec fn processor_can_apply(p: ProjectionModel, command: Command) -> bool {
    match command {
        Command::Deposit { client, tx, amount } => p.transactions.contains_key(tx)
            || is_locked_in(p.accounts, client)
            || account_or_fresh(p.accounts, client).can_deposit(amount@ as int),
        Command::Withdrawal { .. } => true,
        Command::Dispute { client, tx } => match dispute_amount_in(p.transactions, client, tx) {
            Some(x) => p.accounts.contains_key(client) ==> p.accounts[client].can_hold(x@ as int),
            None => true,
        },
        Command::Resolve { client, tx } => match disputed_amount_in(p.transactions, client, tx) {
            Some(x) => p.accounts.contains_key(client) ==> p.accounts[client].can_release(
                x@ as int,
            ),
            None => true,
        },
        Command::Chargeback { client, tx } => match disputed_amount_in(p.transactions, client, tx) {
            Some(x) => p.accounts.contains_key(client) ==> p.accounts[client].can_charge_back(
                x@ as int,
            ),
            None => true,
        },
    }
}

/// Whether `client` has an account that is not locked.
pub open spec fn has_open_account(p: ProjectionModel, client: u16) -> bool {
    p.accounts.contains_key(client) && !p.accounts[client].locked
}

/// What processing `command` answers, and the projection afterwards.
///
/// - Deposits and withdrawals reusing a recorded transaction ID are ignored.
/// - A deposit to a locked account is ignored; otherwise it is applied and
///   creates the account if needed.
/// - A withdrawal creates the client's account if needed, then is applied
///   only if the account is unlocked and has enough available funds.
/// - A dispute of a valid deposit owned by the client holds its amount; a
///   resolve or chargeback of a disputed transaction owned by the client
///   releases or charges back its amount. Each needs an existing unlocked
///   account and is ignored otherwise.
pub open spec fn processed_one(p: ProjectionModel, command: Command) -> (ApplyResult, ProjectionModel) {
    match command {
        Command::Deposit { client, tx, amount } => {
            if p.transactions.contains_key(tx) || is_locked_in(p.accounts, client) {
                (ApplyResult::Ignored, p)
            } else {
                (ApplyResult::Applied, projection_after(p, Event::Deposited { client, tx, amount }))
            }
        },
        Command::Withdrawal { client, tx, amount } => {
            if p.transactions.contains_key(tx) {
                (ApplyResult::Ignored, p)
            } else {
                let a = account_or_fresh(p.accounts, client);
                let q = with_account(p, client);
                if a.locked || a.available < amount@ {
                    (ApplyResult::Ignored, q)
                } else {
                    (ApplyResult::Applied, projection_after(q, Event::Withdrawn { client, tx, amount }))
                }
            }
        },
        Command::Dispute { client, tx } => match dispute_amount_in(p.transactions, client, tx) {
            Some(x) => if has_open_account(p, client) {
                (ApplyResult::Applied, ProjectionModel {
                    accounts: p.accounts.insert(client, p.accounts[client].holding(x@ as int)),
                    transactions: with_state(p.transactions, tx, State::Disputed),
                })
            } else {
                (ApplyResult::Ignored, p)
            },
            None => (ApplyResult::Ignored, p),
        },
        Command::Resolve { client, tx } => match disputed_amount_in(p.transactions, client, tx) {
            Some(x) => if has_open_account(p, client) {
                (ApplyResult::Applied, ProjectionModel {
                    accounts: p.accounts.insert(client, p.accounts[client].released(x@ as int)),
                    transactions: with_state(p.transactions, tx, State::Resolved),
                })
            } else {
                (ApplyResult::Ignored, p)
            },
            None => (ApplyResult::Ignored, p),
        },
        Command::Chargeback { client, tx } => match disputed_amount_in(p.transactions, client, tx) {
            Some(x) => if has_open_account(p, client) {
                (ApplyResult::Applied, ProjectionModel {
                    accounts: p.accounts.insert(client, p.accounts[client].charged_back(x@ as int)),
                    transactions: with_state(p.transactions, tx, State::Chargedback),
                })
            } else {
                (ApplyResult::Ignored, p)
            },
            None => (ApplyResult::Ignored, p),
        },
    }
}

/// The projection after processing `commands` in order; `None` when one of
/// them would leave the ranges of the balances.
pub open spec fn processed_all(p: ProjectionModel, commands: Seq<Command>) -> Option<ProjectionModel>
    decreases commands.len(),
{
    if commands.len() == 0 {
        Some(p)
    } else if processor_can_apply(p, commands[0]) {
        processed_all(processed_one(p, commands[0]).1, commands.drop_first())
    } else {
        None
    }
}

/// Processes a stream of transaction commands and maintains account state.
///
/// `Processor` applies each command to the corresponding account, enforcing
/// all transaction rules:
///
/// - Duplicate transaction IDs are silently ignored.
/// - Only deposits can be disputed; disputes on withdrawals are ignored.
/// - Disputes, resolves, and chargebacks must reference a transaction
///   belonging to the same client.
/// - All operations on locked accounts are silently ignored.
pub struct Processor {
    projection: LedgerProjection,
}

impl View for Processor {
    type V = ProjectionModel;

    closed spec fn view(&self) -> ProjectionModel {
        self.projection@
    }
}

impl Processor {
    /// Creates a new processor with no accounts or transaction history.
    pub fn new() -> (r: Processor)
        ensures
            r@ == empty_projection(),
    {
        Processor { projection: LedgerProjection::new() }
    }

    /// Consumes all commands and returns the final account state.
    ///
    /// Each client account is created on its first deposit or withdrawal.
    pub fn process(self, transactions: &[Command]) -> (r: HashMap<u16, Account>)
        requires
            processed_all(self@, transactions@) is Some,
        ensures
            account_models(r@) == processed_all(self@, transactions@).unwrap().accounts,
    {
        let ghost start = self@;
        let mut processor = self;
        let mut i: usize = 0;
        assert(transactions@.skip(0) =~= transactions@);
        while i < transactions.len()
            invariant
                i <= transactions@.len(),
                processed_all(start, transactions@) is Some,
                processed_all(processor@, transactions@.skip(i as int)) == processed_all(start, transactions@),
            decreases transactions@.len() - i,
        {
            let transaction = transactions[i];
            proof {
                assert(transactions@.skip(i as int)[0] == transaction);
                assert(transactions@.skip(i as int).drop_first() =~= transactions@.skip(i + 1));
            }
            processor.apply(transaction);
            i = i + 1;
        }
        assert(transactions@.skip(i as int) =~= Seq::<Command>::empty());
        processor.projection.into_accounts()
    }

    /// Returns the current account state for `client`, if it exists.
    pub fn account(&self, client: u16) -> (r: Option<&Account>)
        ensures
            match r {
                Some(a) => self@.accounts.contains_key(client) && a@ == self@.accounts[client],
                None => !self@.accounts.contains_key(client),
            },
    {
        self.projection.account(client)
    }

    /// Applies one command, answering whether it changed the state.
    pub fn apply(&mut self, transaction: Command) -> (r: ApplyResult)
        requires
            processor_can_apply(old(self)@, transaction),
        ensures
            (r, final(self)@) == processed_one(old(self)@, transaction),
    {
        match transaction {
            Command::Deposit { client, tx, amount } => {
                if self.projection.has_record(tx) {
                    ApplyResult::Ignored
                } else {
                    self.deposit(client, tx, amount)
                }
            },
            Command::Withdrawal { client, tx, amount } => {
                if self.projection.has_record(tx) {
                    ApplyResult::Ignored
                } else {
                    self.withdraw(client, tx, amount)
                }
            },
            Command::Dispute { client, tx } => self.dispute(client, tx),
            Command::Resolve { client, tx } => self.resolve(client, tx),
            Command::Chargeback { client, tx } => self.chargeback(client, tx),
        }
    }

    fn deposit(&mut self, client: u16, tx: u32, amount: Amount) -> (r: ApplyResult)
        requires
            !old(self)@.transactions.contains_key(tx),
            processor_can_apply(old(self)@, Command::Deposit { client, tx, amount }),
        ensures
            (r, final(self)@) == processed_one(old(self)@, Command::Deposit { client, tx, amount }),
    {
        let locked = match self.projection.account(client) {
            Some(account) => account.locked(),
            None => false,
        };
        if locked {
            return ApplyResult::Ignored;
        }
        self.projection.apply(Event::Deposited { client, tx, amount });
        ApplyResult::Applied
    }

    fn withdraw(&mut self, client: u16, tx: u32, amount: Amount) -> (r: ApplyResult)
        requires
            !old(self)@.transactions.contains_key(tx),
        ensures
            (r, final(self)@) == processed_one(old(self)@, Command::Withdrawal { client, tx, amount }),
    {
        self.projection.ensure_account(client);
        let refused = match self.projection.account(client) {
            Some(account) => account.locked() || account.available().is_less_than(amount),
            None => true,
        };
        assert(self@ == with_account(old(self)@, client));
        if refused {
            return ApplyResult::Ignored;
        }
        self.projection.apply(Event::Withdrawn { client, tx, amount });
        ApplyResult::Applied
    }

    fn dispute(&mut self, client: u16, tx: u32) -> (r: ApplyResult)
        requires
            processor_can_apply(old(self)@, Command::Dispute { client, tx }),
        ensures
            (r, final(self)@) == processed_one(old(self)@, Command::Dispute { client, tx }),
    {
        let amount = match self.projection.record(tx) {
            Some(record) => if record.client == client && record.is_disputable() {
                record.amount
            } else {
                return ApplyResult::Ignored;
            },
            None => return ApplyResult::Ignored,
        };
        if self.projection.try_hold(client, amount) && self.projection.set_record_state(
            tx,
            State::Disputed,
        ) {
            ApplyResult::Applied
        } else {
            ApplyResult::Ignored
        }
    }

    fn resolve(&mut self, client: u16, tx: u32) -> (r: ApplyResult)
        requires
            processor_can_apply(old(self)@, Command::Resolve { client, tx }),
        ensures
            (r, final(self)@) == processed_one(old(self)@, Command::Resolve { client, tx }),
    {
        let amount = match self.projection.record(tx) {
            Some(record) => if record.client == client && record.state.is_resolvable() {
                record.amount
            } else {
                return ApplyResult::Ignored;
            },
            None => return ApplyResult::Ignored,
        };
        if self.projection.try_release(client, amount) && self.projection.set_record_state(
            tx,
            State::Resolved,
        ) {
            ApplyResult::Applied
        } else {
            ApplyResult::Ignored
        }
    }

    fn chargeback(&mut self, client: u16, tx: u32) -> (r: ApplyResult)
        requires
            processor_can_apply(old(self)@, Command::Chargeback { client, tx }),
        ensures
            (r, final(self)@) == processed_one(old(self)@, Command::Chargeback { client, tx }),
    {
        let amount = match self.projection.record(tx) {
            Some(record) => if record.client == client && record.state.is_chargebackable() {
                record.amount
            } else {
                return ApplyResult::Ignored;
            },
            None => return ApplyResult::Ignored,
        };
        if self.projection.try_charge_back(client, amount) && self.projection.set_record_state(
            tx,
            State::Chargedback,
        ) {
            ApplyResult::Applied
        } else {
            ApplyResult::Ignored
        }
    }
}

impl Default for Processor {
    fn default() -> (r: Processor)
        ensures
            r@ == empty_projection(),
    {
        Processor::new()
    }
}

} // verus!
