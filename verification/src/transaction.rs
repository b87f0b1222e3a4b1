//! Processed transactions and their dispute lifecycle.
use std::collections::HashMap;

use vstd::prelude::*;

use crate::amount::Amount;
use crate::event::Event;

verus! {

/// Lifecycle state of a transaction.
///
/// Transitions flow in one direction: `Valid` → `Disputed` → `Resolved` or
/// `Chargedback`. A resolved or charged-back transaction cannot be disputed
/// again.
#[derive(Debug, Clone, Copy, PartialEq, Eq)]
pub enum State {
    /// The transaction has not been disputed.
    Valid,
    /// A dispute is open on this transaction.
    Disputed,
    /// The dispute was resolved; funds were returned to the client.
    Resolved,
    /// The dispute was finalised as a chargeback; funds were permanently deducted.
    Chargedback,
}

impl State {
    /// Only an open dispute can be resolved.
    pub fn is_resolvable(&self) -> (r: bool)
        ensures
            r == (*self is Disputed),
    {
        matches!(self, State::Disputed)
    }

    /// Only an open dispute can be charged back.
    pub fn is_chargebackable(&self) -> (r: bool)
        ensures
            r == (*self is Disputed),
    {
        matches!(self, State::Disputed)
    }
}

/// The kind of transaction, which decides whether it can be disputed.
///
/// Only deposits can be disputed: withdrawal disputes are ignored.
#[derive(Debug, Clone, Copy, PartialEq, Eq)]
pub enum Kind {
    /// A credit to the client's account.
    Deposit,
    /// A debit from the client's account.
    Withdrawal,
}

/// A processed transaction, tracking its dispute lifecycle.
#[derive(Debug, Clone, Copy)]
pub struct Transaction {
    /// The client this transaction belongs to.
    pub client: u16,
    /// The transaction amount.
    pub amount: Amount,
    /// Whether this was a deposit or withdrawal.
    pub kind: Kind,
    /// Current dispute state of the transaction.
    pub state: State,
}

impl Transaction {
    /// Only valid (never disputed) deposits can be disputed.
    pub open spec fn spec_is_disputable(self) -> bool {
        self.kind is Deposit && self.state is Valid
    }

    /// Returns `true` if the transaction can be disputed: it is a deposit
    /// that was never disputed.
    pub fn is_disputable(&self) -> (r: bool)
        ensures
            r == self.spec_is_disputable(),
    {
        matches!(self.kind, Kind::Deposit) && matches!(self.state, State::Valid)
    }

    /// Returns the amount if the transaction belongs to `client` and is disputable.
    pub fn dispute_amount(&self, client: u16) -> (r: Option<Amount>)
        ensures
            r == (if self.client == client && self.spec_is_disputable() {
                Some(self.amount)
            } else {
                None
            }),
    {
        if self.client == client && self.is_disputable() {
            Some(self.amount)
        } else {
            None
        }
    }

    /// Returns the amount if the transaction belongs to `client` and is resolvable.
    pub fn resolve_amount(&self, client: u16) -> (r: Option<Amount>)
        ensures
            r == (if self.client == client && self.state is Disputed {
                Some(self.amount)
            } else {
                None
            }),
    {
        if self.client == client && self.state.is_resolvable() {
            Some(self.amount)
        } else {
            None
        }
    }

    /// Returns the amount if the transaction belongs to `client` and is chargebackable.
    pub fn chargeback_amount(&self, client: u16) -> (r: Option<Amount>)
        ensures
            r == (if self.client == client && self.state is Disputed {
                Some(self.amount)
            } else {
                None
            }),
    {
        if self.client == client && self.state.is_chargebackable() {
            Some(self.amount)
        } else {
            None
        }
    }
}

/// The amount of `tx` if it exists, belongs to `client` and can be disputed.
pub open spec fn dispute_amount_in(txs: Map<u32, Transaction>, client: u16, tx: u32) -> Option<Amount> {
    if txs.contains_key(tx) && txs[tx].client == client && txs[tx].spec_is_disputable() {
        Some(txs[tx].amount)
    } else {
        None
    }
}

/// The amount of `tx` if it exists, belongs to `client` and is under dispute.
pub open spec fn disputed_amount_in(txs: Map<u32, Transaction>, client: u16, tx: u32) -> Option<Amount> {
    if txs.contains_key(tx) && txs[tx].client == client && txs[tx].state is Disputed {
        Some(txs[tx].amount)
    } else {
        None
    }
}

/// Applying `event` to the transactions finds the transaction it needs.
/// (Deposits and withdrawals record a new one.)
pub open spec fn txs_can_apply(txs: Map<u32, Transaction>, event: Event) -> bool {
    match event {
        Event::Deposited { .. } => true,
        Event::Withdrawn { .. } => true,
        _ => txs.contains_key(event.tx()),
    }
}

/// `txs[tx]` with its state replaced.
pub open spec fn with_state(txs: Map<u32, Transaction>, tx: u32, state: State) -> Map<u32, Transaction> {
    txs.insert(tx, Transaction { state, ..txs[tx] })
}

/// The transactions after `event`: deposits and withdrawals are recorded as
/// valid transactions; disputes, resolutions and chargebacks move the
/// transaction to the matching state.
pub open spec fn txs_after(txs: Map<u32, Transaction>, event: Event) -> Map<u32, Transaction> {
    match event {
        Event::Deposited { client, tx, amount } => txs.insert(
            tx,
            Transaction { client, amount, kind: Kind::Deposit, state: State::Valid },
        ),
        Event::Withdrawn { client, tx, amount } => txs.insert(
            tx,
            Transaction { client, amount, kind: Kind::Withdrawal, state: State::Valid },
        ),
        Event::DisputeOpened { tx, .. } => with_state(txs, tx, State::Disputed),
        Event::DisputeResolved { tx, .. } => with_state(txs, tx, State::Resolved),
        Event::ChargedBack { tx, .. } => with_state(txs, tx, State::Chargedback),
    }
}

/// All processed transactions, indexed by ID: the transaction aggregate.
///
/// Owns the dispute lifecycle and transaction identity. Used by the ledger
/// to validate commands against existing transaction state.
pub struct Transactions(HashMap<u32, Transaction>);

impl View for Transactions {
    type V = Map<u32, Transaction>;

    closed spec fn view(&self) -> Map<u32, Transaction> {
        self.0@
    }
}

impl Transactions {
    /// No transactions.
    pub fn new() -> (r: Transactions)
        ensures
            r@ == Map::<u32, Transaction>::empty(),
    {
        Transactions(HashMap::new())
    }

    /// Returns `true` if a transaction with the given ID has already been processed.
    pub fn contains(&self, tx: &u32) -> (r: bool)
        ensures
            r == self@.contains_key(*tx),
    {
        self.0.contains_key(tx)
    }

    /// Returns the disputed amount if the transaction exists, belongs to
    /// `client`, and can be disputed.
    pub fn dispute_amount(&self, client: u16, tx: &u32) -> (r: Option<Amount>)
        ensures
            r == dispute_amount_in(self@, client, *tx),
    {
        match self.0.get(tx) {
            Some(t) => t.dispute_amount(client),
            None => None,
        }
    }

    /// Returns the held amount if the transaction exists, belongs to
    /// `client`, and is currently disputed.
    pub fn resolve_amount(&self, client: u16, tx: &u32) -> (r: Option<Amount>)
        ensures
            r == disputed_amount_in(self@, client, *tx),
    {
        match self.0.get(tx) {
            Some(t) => t.resolve_amount(client),
            None => None,
        }
    }

    /// Returns the held amount if the transaction exists, belongs to
    /// `client`, and is currently disputed.
    pub fn chargeback_amount(&self, client: u16, tx: &u32) -> (r: Option<Amount>)
        ensures
            r == disputed_amount_in(self@, client, *tx),
    {
        match self.0.get(tx) {
            Some(t) => t.chargeback_amount(client),
            None => None,
        }
    }

    /// Records a deposit or withdrawal as a valid transaction.
    pub fn record(&mut self, client: u16, tx: u32, amount: Amount, kind: Kind)
        ensures
            final(self)@ == old(self)@.insert(
                tx,
                Transaction { client, amount, kind, state: State::Valid },
            ),
    {
        self.0.insert(tx, Transaction { client, amount, kind, state: State::Valid });
    }

    /// Moves transaction `tx` to `state`.
    pub fn set_state(&mut self, tx: u32, state: State)
        requires
            old(self)@.contains_key(tx),
        ensures
            final(self)@ == with_state(old(self)@, tx, state),
    {
        match self.0.remove(&tx) {
            Some(t) => {
                self.0.insert(tx, Transaction { state, ..t });
            },
            None => {},
        }
        assert(final(self)@ =~= with_state(old(self)@, tx, state));
    }

    /// Applies a validated event, updating transaction records.
    pub fn apply(&mut self, event: Event)
        requires
            txs_can_apply(old(self)@, event),
        ensures
            final(self)@ == txs_after(old(self)@, event),
    {
        match event {
            Event::Deposited { client, tx, amount } => {
                self.record(client, tx, amount, Kind::Deposit);
            },
            Event::Withdrawn { client, tx, amount } => {
                self.record(client, tx, amount, Kind::Withdrawal);
            },
            Event::DisputeOpened { client: _, tx, amount: _ } => {
                self.set_state(tx, State::Disputed);
            },
            Event::DisputeResolved { client: _, tx, amount: _ } => {
                self.set_state(tx, State::Resolved);
            },
            Event::ChargedBack { client: _, tx, amount: _ } => {
                self.set_state(tx, State::Chargedback);
            },
        }
    }
}

impl Default for Transactions {
    fn default() -> (r: Transactions)
        ensures
            r@ == Map::<u32, Transaction>::empty(),
    {
        Transactions::new()
    }
}

} // verus!
