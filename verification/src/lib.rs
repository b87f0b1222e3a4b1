//! A financial transaction ledger.
//!
//! Commands (deposits, withdrawals, disputes, resolutions, chargebacks) are
//! validated against the current state; an accepted command becomes an
//! event, the event is appended to the log and applied to the transaction
//! records and the client accounts. Replaying the log rebuilds the state.
mod text;

pub mod account;
pub mod amount;
pub mod balance;
pub mod balances;
pub mod command;
pub mod csv;
pub mod decider;
pub mod event;
pub mod event_log;
pub mod funds;
pub mod guarantees;
pub mod ledger;
pub mod processor;
pub mod projection;
pub mod store;
pub mod transaction;

pub use account::{Account, Accounts};
pub use amount::Amount;
pub use command::Command;
pub use event::Event;
pub use funds::Funds;
pub use ledger::Ledger;
pub use store::{EventStore, MemoryStore};
