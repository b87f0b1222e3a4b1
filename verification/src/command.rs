//! Requests to change the ledger.
use vstd::prelude::*;

use crate::amount::Amount;

verus! {

/// A request read from the input. Commands are validated against the
/// current state before they become events.
#[derive(Debug, Clone, Copy, PartialEq, Eq)]
pub enum Command {
    /// Credit `amount` to the client's account.
    Deposit { client: u16, tx: u32, amount: Amount },
    /// Debit `amount` from the client's account.
    Withdrawal { client: u16, tx: u32, amount: Amount },
    /// Dispute the earlier transaction `tx`.
    Dispute { client: u16, tx: u32 },
    /// Resolve the open dispute on `tx`.
    Resolve { client: u16, tx: u32 },
    /// Finalise the open dispute on `tx` as a chargeback.
    Chargeback { client: u16, tx: u32 },
}

} // verus!
