//! Accepted facts of the ledger.
use vstd::prelude::*;

use crate::amount::Amount;

verus! {

/// A domain event representing a validated state change.
///
/// Events are the output of the decision phase: each variant carries all
/// data needed to apply the change without further lookups.
#[derive(Debug, Clone, Copy, PartialEq, Eq)]
pub enum Event {
    /// Funds were credited to the client's account.
    Deposited { client: u16, tx: u32, amount: Amount },
    /// Funds were debited from the client's account.
    Withdrawn { client: u16, tx: u32, amount: Amount },
    /// A dispute was opened, moving funds to held.
    DisputeOpened { client: u16, tx: u32, amount: Amount },
    /// A dispute was resolved, releasing held funds.
    DisputeResolved { client: u16, tx: u32, amount: Amount },
    /// A chargeback was finalised, removing held funds and locking the account.
    ChargedBack { client: u16, tx: u32, amount: Amount },
}

impl Event {
    /// The account the event concerns.
    pub open spec fn client(self) -> u16 {
        match self {
            Event::Deposited { client, .. } => client,
            Event::Withdrawn { client, .. } => client,
            Event::DisputeOpened { client, .. } => client,
            Event::DisputeResolved { client, .. } => client,
            Event::ChargedBack { client, .. } => client,
        }
    }

    /// The transaction the event concerns.
    pub open spec fn tx(self) -> u32 {
        match self {
            Event::Deposited { tx, .. } => tx,
            Event::Withdrawn { tx, .. } => tx,
            Event::DisputeOpened { tx, .. } => tx,
            Event::DisputeResolved { tx, .. } => tx,
            Event::ChargedBack { tx, .. } => tx,
        }
    }

    /// The amount the event moves.
    pub open spec fn amount(self) -> Amount {
        match self {
            Event::Deposited { amount, .. } => amount,
            Event::Withdrawn { amount, .. } => amount,
            Event::DisputeOpened { amount, .. } => amount,
            Event::DisputeResolved { amount, .. } => amount,
            Event::ChargedBack { amount, .. } => amount,
        }
    }
}

/// The outcome of validating a command against current state.
#[derive(Debug, Clone, Copy, PartialEq, Eq)]
pub enum Decision {
    /// The command passed validation and produced an event.
    Approved(Event),
    /// The command was rejected (duplicate, locked, insufficient funds, etc.).
    Denied,
}

} // verus!
