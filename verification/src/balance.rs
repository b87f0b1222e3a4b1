//! The monetary state of an account.
use vstd::prelude::*;

use crate::amount::Amount;
use crate::funds::Funds;

verus! {

/// Error type for balance operations.
#[derive(Debug)]
pub enum BalanceError {
    /// The requested withdrawal exceeds the available funds.
    InsufficientFunds,
}

/// Holds the monetary state of an account.
///
/// `Balance` tracks available funds and held funds separately. Held funds
/// cannot be withdrawn until they are released or removed. `total` is always
/// derived as `available + held` and is never stored independently.
///
/// `available` can go negative after held funds are removed following a
/// prior withdrawal.
pub struct Balance {
    /// Funds available for withdrawal. Can go negative.
    available: Funds,
    /// Funds currently held and unavailable for withdrawal.
    held: Amount,
}

impl Balance {
    /// Funds available for withdrawal, in ten-thousandths.
    pub closed spec fn available_units(&self) -> int {
        self.available@ as int
    }

    /// Funds held, in ten-thousandths.
    pub closed spec fn held_units(&self) -> int {
        self.held@ as int
    }

    pub proof fn lemma_ranges(&self)
        ensures
            i128::MIN <= self.available_units() <= i128::MAX,
            0 <= self.held_units() <= u64::MAX,
    {
    }

    /// Creates a new balance with zero available and zero held.
    pub fn new() -> (r: Balance)
        ensures
            r.available_units() == 0,
            r.held_units() == 0,
    {
        Balance { available: Funds::zero(), held: Amount::zero() }
    }

    /// Returns the funds available for withdrawal.
    pub fn available(&self) -> (r: Funds)
        ensures
            r@ == self.available_units(),
    {
        self.available
    }

    /// Returns the funds currently held.
    pub fn held(&self) -> (r: Amount)
        ensures
            r@ == self.held_units(),
    {
        self.held
    }

    /// Returns the total balance (`available + held`).
    pub fn total(&self) -> (r: Funds)
        requires
            self.available_units() + self.held_units() <= i128::MAX,
        ensures
            r@ == self.available_units() + self.held_units(),
    {
        self.available.plus(self.held)
    }

    /// Increases available funds by `amount`.
    pub fn deposit(&mut self, amount: Amount)
        requires
            old(self).available_units() + amount@ <= i128::MAX,
        ensures
            final(self).available_units() == old(self).available_units() + amount@,
            final(self).held_units() == old(self).held_units(),
    {
        self.available = self.available.plus(amount);
    }

    /// Decreases available funds by `amount`.
    ///
    /// Returns `InsufficientFunds` if `amount` exceeds available funds,
    /// leaving the balance unchanged.
    pub fn withdraw(&mut self, amount: Amount) -> (r: Result<(), BalanceError>)
        ensures
            r is Err <==> old(self).available_units() < amount@,
            r is Err ==> final(self).available_units() == old(self).available_units(),
            r is Ok ==> final(self).available_units() == old(self).available_units() - amount@,
            final(self).held_units() == old(self).held_units(),
    {
        if self.available.is_less_than(amount) {
            return Err(BalanceError::InsufficientFunds);
        }
        self.available = self.available.minus(amount);
        Ok(())
    }

    /// Moves `amount` from available to held.
    pub fn hold(&mut self, amount: Amount)
        requires
            old(self).available_units() - amount@ >= i128::MIN,
            old(self).held_units() + amount@ <= u64::MAX,
        ensures
            final(self).available_units() == old(self).available_units() - amount@,
            final(self).held_units() == old(self).held_units() + amount@,
    {
        self.available = self.available.minus(amount);
        self.held = self.held.plus(amount);
    }

    /// Moves `amount` from held back to available.
    pub fn release(&mut self, amount: Amount)
        requires
            old(self).available_units() + amount@ <= i128::MAX,
            old(self).held_units() >= amount@,
        ensures
            final(self).available_units() == old(self).available_units() + amount@,
            final(self).held_units() == old(self).held_units() - amount@,
    {
        self.available = self.available.plus(amount);
        self.held = self.held.minus(amount);
    }

    /// Removes `amount` from held without returning it to available.
    ///
    /// This can leave `available` negative if funds were withdrawn before
    /// the hold was placed.
    pub fn chargeback(&mut self, amount: Amount)
        requires
            old(self).held_units() >= amount@,
        ensures
            final(self).available_units() == old(self).available_units(),
            final(self).held_units() == old(self).held_units() - amount@,
    {
        self.held = self.held.minus(amount);
    }
}

impl Default for Balance {
    fn default() -> (r: Balance)
        ensures
            r.available_units() == 0,
            r.held_units() == 0,
    {
        Balance::new()
    }
}

} // verus!
