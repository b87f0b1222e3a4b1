//! Client accounts and the account aggregate.
use std::collections::HashMap;

use vstd::prelude::*;

use crate::amount::Amount;
use crate::balance::{Balance, BalanceError};
use crate::event::Event;
use crate::funds::Funds;

verus! {

/// The state of an account as the contracts see it.
pub ghost struct AccountModel {
    pub client: u16,
    /// Funds available for withdrawal, in ten-thousandths. Can be negative.
    pub available: int,
    /// Funds held under dispute, in ten-thousandths.
    pub held: int,
    /// Set by a chargeback; a locked account rejects all changes.
    pub locked: bool,
}

impl AccountModel {
    /// A fresh account: zero balance, unlocked.
    pub open spec fn fresh(client: u16) -> AccountModel {
        AccountModel { client, available: 0, held: 0, locked: false }
    }

    /// `available + held`.
    pub open spec fn total(self) -> int {
        self.available + self.held
    }

    /// Deposit: available grows by `x`; a locked account is unchanged.
    pub open spec fn deposited(self, x: int) -> AccountModel {
        if self.locked { self } else { AccountModel { available: self.available + x, ..self } }
    }

    /// Withdrawal: available shrinks by `x` unless the account is locked or
    /// has less than `x` available, in which case it is unchanged.
    pub open spec fn withdrawn(self, x: int) -> AccountModel {
        if self.locked || self.available < x {
            self
        } else {
            AccountModel { available: self.available - x, ..self }
        }
    }

    /// Hold: `x` moves from available to held unless the account is locked.
    pub open spec fn holding(self, x: int) -> AccountModel {
        if self.locked {
            self
        } else {
            AccountModel { available: self.available - x, held: self.held + x, ..self }
        }
    }

    /// Release: `x` moves from held back to available unless the account is locked.
    pub open spec fn released(self, x: int) -> AccountModel {
        if self.locked {
            self
        } else {
            AccountModel { available: self.available + x, held: self.held - x, ..self }
        }
    }

    /// Chargeback: `x` leaves held and the account locks, unless it is locked already.
    pub open spec fn charged_back(self, x: int) -> AccountModel {
        if self.locked {
            self
        } else {
            AccountModel { held: self.held - x, locked: true, ..self }
        }
    }

    /// A deposit of `x` stays within the range of the balance.
    pub open spec fn can_deposit(self, x: int) -> bool {
        self.locked || self.available + x <= i128::MAX
    }

    /// A hold of `x` stays within the ranges of the balance.
    pub open spec fn can_hold(self, x: int) -> bool {
        self.locked || (self.available - x >= i128::MIN && self.held + x <= u64::MAX)
    }

    /// A release of `x` stays within the ranges of the balance.
    pub open spec fn can_release(self, x: int) -> bool {
        self.locked || (self.available + x <= i128::MAX && self.held >= x)
    }

    /// A chargeback of `x` stays within the range of the balance.
    pub open spec fn can_charge_back(self, x: int) -> bool {
        self.locked || self.held >= x
    }
}

/// Error type for account operations.
#[derive(Debug)]
pub enum AccountError {
    /// The account is locked and rejects all mutations.
    Locked,
    /// The requested withdrawal exceeds the available funds.
    InsufficientFunds,
}

/// A client account: a balance and a locked state.
///
/// A locked account rejects all mutations. Locking happens permanently after
/// a chargeback and cannot be undone.
///
/// Two distinct states govern fund availability:
/// - frozen funds are temporarily unavailable for withdrawal and can be
///   released again;
/// - a locked account permanently rejects all account mutations.
pub struct Account {
    /// The client this account belongs to.
    client: u16,
    /// The monetary state of the account.
    balance: Balance,
    /// Whether the account has been locked by a chargeback.
    locked: bool,
}

impl View for Account {
    type V = AccountModel;

    closed spec fn view(&self) -> AccountModel {
        AccountModel {
            client: self.client,
            available: self.balance.available_units(),
            held: self.balance.held_units(),
            locked: self.locked,
        }
    }
}

impl Account {
    pub proof fn lemma_ranges(&self)
        ensures
            i128::MIN <= self@.available <= i128::MAX,
            0 <= self@.held <= u64::MAX,
    {
        self.balance.lemma_ranges();
    }

    /// Creates a new account for `client` with zero balance, unlocked.
    pub fn new(client: u16) -> (r: Account)
        ensures
            r@ == AccountModel::fresh(client),
    {
        Account { client, balance: Balance::new(), locked: false }
    }

    /// Returns the client ID this account belongs to.
    pub fn client(&self) -> (r: u16)
        ensures
            r == self@.client,
    {
        self.client
    }

    /// Returns the funds available for withdrawal.
    pub fn available(&self) -> (r: Funds)
        ensures
            r@ == self@.available,
    {
        self.balance.available()
    }

    /// Returns the funds currently held.
    pub fn held(&self) -> (r: Amount)
        ensures
            r@ == self@.held,
    {
        self.balance.held()
    }

    /// Returns the total balance (`available + held`).
    pub fn total(&self) -> (r: Funds)
        requires
            self@.total() <= i128::MAX,
        ensures
            r@ == self@.total(),
    {
        self.balance.total()
    }

    /// Returns `true` if the account has been locked by a chargeback.
    pub fn locked(&self) -> (r: bool)
        ensures
            r == self@.locked,
    {
        self.locked
    }

    /// Increases available funds by `amount`; `Locked` if the account is locked.
    pub fn deposit(&mut self, amount: Amount) -> (r: Result<(), AccountError>)
        requires
            old(self)@.can_deposit(amount@ as int),
        ensures
            final(self)@ == old(self)@.deposited(amount@ as int),
            r is Err <==> old(self)@.locked,
            r matches Err(e) ==> e is Locked,
    {
        if self.locked {
            return Err(AccountError::Locked);
        }
        self.balance.deposit(amount);
        Ok(())
    }

    /// Decreases available funds by `amount`: `Locked` if the account is
    /// locked, `InsufficientFunds` if `amount` exceeds the available funds.
    pub fn withdraw(&mut self, amount: Amount) -> (r: Result<(), AccountError>)
        ensures
            final(self)@ == old(self)@.withdrawn(amount@ as int),
            r is Err <==> old(self)@.locked || old(self)@.available < amount@,
            r matches Err(e) ==> (e is Locked <==> old(self)@.locked),
    {
        if self.locked {
            return Err(AccountError::Locked);
        }
        match self.balance.withdraw(amount) {
            Ok(()) => Ok(()),
            Err(BalanceError::InsufficientFunds) => Err(AccountError::InsufficientFunds),
        }
    }

    /// Freezes `amount`, moving it from available to held; `Locked` if the
    /// account is locked.
    pub fn hold(&mut self, amount: Amount) -> (r: Result<(), AccountError>)
        requires
            old(self)@.can_hold(amount@ as int),
        ensures
            final(self)@ == old(self)@.holding(amount@ as int),
            r is Err <==> old(self)@.locked,
            r matches Err(e) ==> e is Locked,
    {
        if self.locked {
            return Err(AccountError::Locked);
        }
        self.balance.hold(amount);
        Ok(())
    }

    /// Unfreezes `amount`, making it available for withdrawal again;
    /// `Locked` if the account is locked.
    pub fn release(&mut self, amount: Amount) -> (r: Result<(), AccountError>)
        requires
            old(self)@.can_release(amount@ as int),
        ensures
            final(self)@ == old(self)@.released(amount@ as int),
            r is Err <==> old(self)@.locked,
            r matches Err(e) ==> e is Locked,
    {
        if self.locked {
            return Err(AccountError::Locked);
        }
        self.balance.release(amount);
        Ok(())
    }

    /// Permanently deducts the frozen `amount` and locks the account;
    /// `Locked` if the account is locked already.
    ///
    /// Can leave the available balance negative if funds were withdrawn
    /// before the freeze.
    pub fn chargeback(&mut self, amount: Amount) -> (r: Result<(), AccountError>)
        requires
            old(self)@.can_charge_back(amount@ as int),
        ensures
            final(self)@ == old(self)@.charged_back(amount@ as int),
            r is Err <==> old(self)@.locked,
            r matches Err(e) ==> e is Locked,
    {
        if self.locked {
            return Err(AccountError::Locked);
        }
        self.balance.chargeback(amount);
        self.locked = true;
        Ok(())
    }
}

/// The model of a map of accounts.
pub open spec fn account_models(m: Map<u16, Account>) -> Map<u16, AccountModel> {
    m.map_values(|a: Account| a@)
}

pub proof fn lemma_account_models_insert(m: Map<u16, Account>, k: u16, a: Account)
    ensures
        account_models(m.insert(k, a)) == account_models(m).insert(k, a@),
{
    assert(account_models(m.insert(k, a)) =~= account_models(m).insert(k, a@));
}

/// Whether `client` has an account and it is locked.
pub open spec fn is_locked_in(accounts: Map<u16, AccountModel>, client: u16) -> bool {
    accounts.contains_key(client) && accounts[client].locked
}

/// Whether `client` has an unlocked account with at least `amount` available.
pub open spec fn can_withdraw_in(accounts: Map<u16, AccountModel>, client: u16, amount: int) -> bool {
    accounts.contains_key(client) && !accounts[client].locked && accounts[client].available >= amount
}

/// The account of `client`, or a fresh one if there is none yet.
pub open spec fn account_or_fresh(accounts: Map<u16, AccountModel>, client: u16) -> AccountModel {
    if accounts.contains_key(client) {
        accounts[client]
    } else {
        AccountModel::fresh(client)
    }
}

/// Applying `event` to the accounts finds its account and stays within the
/// ranges of the balances. (A deposit creates the account if needed.)
pub open spec fn accounts_can_apply(accounts: Map<u16, AccountModel>, event: Event) -> bool {
    let c: u16 = event.client();
    let x: int = event.amount()@ as int;
    match event {
        Event::Deposited { .. } => account_or_fresh(accounts, c).can_deposit(x),
        Event::Withdrawn { .. } => accounts.contains_key(c),
        Event::DisputeOpened { .. } => accounts.contains_key(c) && accounts[c].can_hold(x),
        Event::DisputeResolved { .. } => accounts.contains_key(c) && accounts[c].can_release(x),
        Event::ChargedBack { .. } => accounts.contains_key(c) && accounts[c].can_charge_back(x),
    }
}

/// The accounts after `event`: the operation is applied to the event's
/// account, and an operation that the account refuses changes nothing.
pub open spec fn accounts_after(accounts: Map<u16, AccountModel>, event: Event) -> Map<u16, AccountModel> {
    let c: u16 = event.client();
    let x: int = event.amount()@ as int;
    let a = account_or_fresh(accounts, c);
    match event {
        Event::Deposited { .. } => accounts.insert(c, a.deposited(x)),
        Event::Withdrawn { .. } => accounts.insert(c, a.withdrawn(x)),
        Event::DisputeOpened { .. } => accounts.insert(c, a.holding(x)),
        Event::DisputeResolved { .. } => accounts.insert(c, a.released(x)),
        Event::ChargedBack { .. } => accounts.insert(c, a.charged_back(x)),
    }
}

/// All client accounts, indexed by client ID: the account aggregate.
///
/// Owns balance state and locked status. Used by the ledger to validate
/// commands against account state and to produce the final output.
pub struct Accounts(HashMap<u16, Account>);

impl View for Accounts {
    type V = Map<u16, AccountModel>;

    closed spec fn view(&self) -> Map<u16, AccountModel> {
        account_models(self.0@)
    }
}

impl Accounts {
    /// Every account is stored under its own client ID.
    #[verifier::type_invariant]
    spec fn keys_match(self) -> bool {
        forall|c: u16| #[trigger] self.0@.contains_key(c) ==> self.0@[c]@.client == c
    }

    /// No accounts.
    pub fn new() -> (r: Accounts)
        ensures
            r@ == Map::<u16, AccountModel>::empty(),
    {
        let r = Accounts(HashMap::new());
        assert(r@ =~= Map::<u16, AccountModel>::empty());
        r
    }

    /// Returns a reference to the account for the given client, if it exists.
    pub fn get(&self, client: &u16) -> (r: Option<&Account>)
        ensures
            match r {
                Some(a) => self@.contains_key(*client) && a@ == self@[*client] && a@.client == *client,
                None => !self@.contains_key(*client),
            },
    {
        proof {
            use_type_invariant(self);
        }
        self.0.get(client)
    }

    /// Returns `true` if the account exists and is locked; `false` for
    /// unknown clients.
    pub fn is_locked(&self, client: &u16) -> (r: bool)
        ensures
            r == is_locked_in(self@, *client),
    {
        match self.0.get(client) {
            Some(a) => a.locked(),
            None => false,
        }
    }

    /// Returns `true` if the client can withdraw `amount`: the account
    /// exists, is not locked, and has enough available funds.
    pub fn can_withdraw(&self, client: &u16, amount: Amount) -> (r: bool)
        ensures
            r == can_withdraw_in(self@, *client, amount@ as int),
    {
        match self.0.get(client) {
            Some(a) => !a.locked() && !a.available().is_less_than(amount),
            None => false,
        }
    }

    /// Whether applying `event` finds its account and stays within the
    /// ranges of the balances.
    pub fn can_apply(&self, event: &Event) -> (r: bool)
        ensures
            r == accounts_can_apply(self@, *event),
    {
        let (client, amount) = match event {
            Event::Deposited { client, amount, .. } => (*client, *amount),
            Event::Withdrawn { client, amount, .. } => (*client, *amount),
            Event::DisputeOpened { client, amount, .. } => (*client, *amount),
            Event::DisputeResolved { client, amount, .. } => (*client, *amount),
            Event::ChargedBack { client, amount, .. } => (*client, *amount),
        };
        let x: i128 = amount.as_i128();
        match self.0.get(&client) {
            None => match event {
                // A fresh account takes any deposit.
                Event::Deposited { .. } => true,
                _ => false,
            },
            Some(a) => {
                proof {
                    a.lemma_ranges();
                }
                if a.locked() {
                    return true;
                }
                let available: i128 = a.available().units();
                let held: u64 = a.held().units();
                match event {
                    Event::Deposited { .. } => available <= i128::MAX - x,
                    Event::Withdrawn { .. } => true,
                    Event::DisputeOpened { .. } => available >= i128::MIN + x && held <= u64::MAX - amount.units(),
                    Event::DisputeResolved { .. } => available <= i128::MAX - x && held >= amount.units(),
                    Event::ChargedBack { .. } => held >= amount.units(),
                }
            },
        }
    }

    /// Applies a validated event, updating account state. An operation that
    /// the account refuses (it is locked, or lacks funds) changes nothing.
    pub fn apply(&mut self, event: Event)
        requires
            accounts_can_apply(old(self)@, event),
        ensures
            final(self)@ == accounts_after(old(self)@, event),
    {
        proof {
            use_type_invariant(&*self);
        }
        let mut map: HashMap<u16, Account> = HashMap::new();
        std::mem::swap(&mut map, &mut self.0);
        let ghost before = map@;
        let client: u16 = event_client(&event);
        let mut account = take_or_fresh(&mut map, client);
        match event {
            Event::Deposited { amount, .. } => {
                let _ = account.deposit(amount);
            },
            Event::Withdrawn { amount, .. } => {
                let _ = account.withdraw(amount);
            },
            Event::DisputeOpened { amount, .. } => {
                let _ = account.hold(amount);
            },
            Event::DisputeResolved { amount, .. } => {
                let _ = account.release(amount);
            },
            Event::ChargedBack { amount, .. } => {
                let _ = account.chargeback(amount);
            },
        }
        put(&mut map, client, account);
        assert(account_models(map@) =~= accounts_after(account_models(before), event));
        assert forall|c: u16| #[trigger] map@.contains_key(c) implies map@[c]@.client == c by {
            if c != client {
                assert(before.contains_key(c));
            }
        }
        self.0 = map;
    }
}

/// The client of an event.
fn event_client(event: &Event) -> (r: u16)
    ensures
        r == event.client(),
{
    match event {
        Event::Deposited { client, .. } => *client,
        Event::Withdrawn { client, .. } => *client,
        Event::DisputeOpened { client, .. } => *client,
        Event::DisputeResolved { client, .. } => *client,
        Event::ChargedBack { client, .. } => *client,
    }
}

/// Takes the account of `client` out of `map`, or a fresh one.
pub fn take_or_fresh(map: &mut HashMap<u16, Account>, client: u16) -> (r: Account)
    ensures
        r@ == account_or_fresh(account_models(old(map)@), client),
        old(map)@.contains_key(client) ==> r == old(map)@[client],
        !old(map)@.contains_key(client) ==> r@.client == client,
        final(map)@ == old(map)@.remove(client),
{
    match map.remove(&client) {
        Some(a) => a,
        None => Account::new(client),
    }
}

/// Puts `account` under `client` in `map`.
pub fn put(map: &mut HashMap<u16, Account>, client: u16, account: Account)
    ensures
        final(map)@ == old(map)@.insert(client, account),
        account_models(final(map)@) == account_models(old(map)@).insert(client, account@),
{
    map.insert(client, account);
    proof {
        lemma_account_models_insert(old(map)@, client, account);
    }
}

impl Default for Accounts {
    fn default() -> (r: Accounts)
        ensures
            r@ == Map::<u16, AccountModel>::empty(),
    {
        Accounts::new()
    }
}

} // verus!
