//! State rebuilt from accepted events: accounts and transaction records.
use std::collections::HashMap;

use vstd::prelude::*;

use crate::account::{
    account_models, account_or_fresh, accounts_after, lemma_account_models_insert, Account,
    AccountModel,
};
use crate::amount::Amount;
use crate::event::Event;
use crate::transaction::{txs_after, with_state, Kind, State, Transaction};

verus! {

/// The state of a ledger projection as the contracts see it.
pub ghost struct ProjectionModel {
    /// Every transaction record, by ID.
    pub transactions: Map<u32, Transaction>,
    /// Every account, by client ID.
    pub accounts: Map<u16, AccountModel>,
}

/// A projection with no history.
pub open spec fn empty_projection() -> ProjectionModel {
    ProjectionModel { transactions: Map::empty(), accounts: Map::empty() }
}

/// An accepted event must find an open account (a deposit may create it),
/// enough available funds for a withdrawal, its transaction record for a
/// dispute, resolution or chargeback, and stay within the ranges of the
/// balances; the projection refuses anything else.
pub open spec fn projection_can_apply(p: ProjectionModel, event: Event) -> bool {
    let c: u16 = event.client();
    let x: int = event.amount()@ as int;
    let a = account_or_fresh(p.accounts, c);
    match event {
        Event::Deposited { .. } => !a.locked && a.can_deposit(x),
        Event::Withdrawn { .. } => p.accounts.contains_key(c) && !a.locked && a.available >= x,
        Event::DisputeOpened { tx, .. } => p.accounts.contains_key(c) && !a.locked && a.can_hold(x)
            && p.transactions.contains_key(tx),
        Event::DisputeResolved { tx, .. } => p.accounts.contains_key(c) && !a.locked
            && a.can_release(x) && p.transactions.contains_key(tx),
        Event::ChargedBack { tx, .. } => p.accounts.contains_key(c) && !a.locked
            && a.can_charge_back(x) && p.transactions.contains_key(tx),
    }
}

/// The projection after an accepted event.
pub open spec fn projection_after(p: ProjectionModel, event: Event) -> ProjectionModel {
    ProjectionModel {
        transactions: txs_after(p.transactions, event),
        accounts: accounts_after(p.accounts, event),
    }
}

/// Accounts rebuilt from events.
pub struct AccountProjection {
    accounts: HashMap<u16, Account>,
}

impl View for AccountProjection {
    type V = Map<u16, AccountModel>;

    closed spec fn view(&self) -> Map<u16, AccountModel> {
        account_models(self.accounts@)
    }
}

impl AccountProjection {
    /// No accounts.
    pub fn new() -> (r: AccountProjection)
        ensures
            r@ == Map::<u16, AccountModel>::empty(),
    {
        let r = AccountProjection { accounts: HashMap::new() };
        assert(r@ =~= Map::<u16, AccountModel>::empty());
        r
    }

    /// The account of `client`, if it exists.
    pub fn account(&self, client: u16) -> (r: Option<&Account>)
        ensures
            match r {
                Some(a) => self@.contains_key(client) && a@ == self@[client],
                None => !self@.contains_key(client),
            },
    {
        self.accounts.get(&client)
    }

    fn take_or_fresh(&mut self, client: u16) -> (r: Account)
        ensures
            r@ == account_or_fresh(old(self)@, client),
            final(self)@ == old(self)@.remove(client),
    {
        let r = match self.accounts.remove(&client) {
            Some(a) => a,
            None => Account::new(client),
        };
        assert(final(self)@ =~= old(self)@.remove(client));
        r
    }

    fn put(&mut self, client: u16, account: Account)
        ensures
            final(self)@ == old(self)@.insert(client, account@),
    {
        self.accounts.insert(client, account);
        proof {
            lemma_account_models_insert(old(self).accounts@, client, account);
        }
    }

    /// Credits `amount`, creating the account on its first deposit. The
    /// account must not be locked.
    pub fn deposit(&mut self, client: u16, amount: Amount)
        requires
            !account_or_fresh(old(self)@, client).locked,
            account_or_fresh(old(self)@, client).can_deposit(amount@ as int),
        ensures
            final(self)@ == old(self)@.insert(
                client,
                account_or_fresh(old(self)@, client).deposited(amount@ as int),
            ),
    {
        let mut account = self.take_or_fresh(client);
        let _ = account.deposit(amount);
        self.put(client, account);
        assert(final(self)@ =~= old(self)@.insert(client, account_or_fresh(old(self)@, client).deposited(amount@ as int)));
    }

    /// Debits `amount` from an existing, unlocked account with enough
    /// available funds.
    pub fn withdrawal(&mut self, client: u16, amount: Amount)
        requires
            old(self)@.contains_key(client),
            !old(self)@[client].locked,
            old(self)@[client].available >= amount@,
        ensures
            final(self)@ == old(self)@.insert(client, old(self)@[client].withdrawn(amount@ as int)),
    {
        let mut account = self.take_or_fresh(client);
        let _ = account.withdraw(amount);
        self.put(client, account);
        assert(final(self)@ =~= old(self)@.insert(client, old(self)@[client].withdrawn(amount@ as int)));
    }

    /// Holds `amount` on an existing, unlocked account.
    pub fn dispute(&mut self, client: u16, amount: Amount)
        requires
            old(self)@.contains_key(client),
            !old(self)@[client].locked,
            old(self)@[client].can_hold(amount@ as int),
        ensures
            final(self)@ == old(self)@.insert(client, old(self)@[client].holding(amount@ as int)),
    {
        let mut account = self.take_or_fresh(client);
        let _ = account.hold(amount);
        self.put(client, account);
        assert(final(self)@ =~= old(self)@.insert(client, old(self)@[client].holding(amount@ as int)));
    }

    /// Releases `amount` on an existing, unlocked account.
    pub fn resolve(&mut self, client: u16, amount: Amount)
        requires
            old(self)@.contains_key(client),
            !old(self)@[client].locked,
            old(self)@[client].can_release(amount@ as int),
        ensures
            final(self)@ == old(self)@.insert(client, old(self)@[client].released(amount@ as int)),
    {
        let mut account = self.take_or_fresh(client);
        let _ = account.release(amount);
        self.put(client, account);
        assert(final(self)@ =~= old(self)@.insert(client, old(self)@[client].released(amount@ as int)));
    }

    /// Charges `amount` back on an existing, unlocked account, locking it.
    pub fn chargeback(&mut self, client: u16, amount: Amount)
        requires
            old(self)@.contains_key(client),
            !old(self)@[client].locked,
            old(self)@[client].can_charge_back(amount@ as int),
        ensures
            final(self)@ == old(self)@.insert(
                client,
                old(self)@[client].charged_back(amount@ as int),
            ),
    {
        let mut account = self.take_or_fresh(client);
        let _ = account.chargeback(amount);
        self.put(client, account);
        assert(final(self)@ =~= old(self)@.insert(client, old(self)@[client].charged_back(amount@ as int)));
    }

    /// Creates a fresh account for `client` unless it has one.
    pub fn ensure(&mut self, client: u16)
        ensures
            final(self)@ == old(self)@.insert(client, account_or_fresh(old(self)@, client)),
    {
        let account = self.take_or_fresh(client);
        self.put(client, account);
        assert(final(self)@ =~= old(self)@.insert(client, account_or_fresh(old(self)@, client)));
    }

    /// Holds `amount` if `client` has an unlocked account; `true` when it did.
    pub fn try_hold(&mut self, client: u16, amount: Amount) -> (r: bool)
        requires
            old(self)@.contains_key(client) ==> old(self)@[client].can_hold(amount@ as int),
        ensures
            r == (old(self)@.contains_key(client) && !old(self)@[client].locked),
            r ==> final(self)@ == old(self)@.insert(client, old(self)@[client].holding(amount@ as int)),
            !r ==> final(self)@ == old(self)@,
    {
        match self.accounts.get(&client) {
            Some(a) => if a.locked() {
                return false;
            },
            None => return false,
        }
        self.dispute(client, amount);
        true
    }

    /// Releases `amount` if `client` has an unlocked account; `true` when it did.
    pub fn try_release(&mut self, client: u16, amount: Amount) -> (r: bool)
        requires
            old(self)@.contains_key(client) ==> old(self)@[client].can_release(amount@ as int),
        ensures
            r == (old(self)@.contains_key(client) && !old(self)@[client].locked),
            r ==> final(self)@ == old(self)@.insert(client, old(self)@[client].released(amount@ as int)),
            !r ==> final(self)@ == old(self)@,
    {
        match self.accounts.get(&client) {
            Some(a) => if a.locked() {
                return false;
            },
            None => return false,
        }
        self.resolve(client, amount);
        true
    }

    /// Charges `amount` back if `client` has an unlocked account; `true` when it did.
    pub fn try_charge_back(&mut self, client: u16, amount: Amount) -> (r: bool)
        requires
            old(self)@.contains_key(client) ==> old(self)@[client].can_charge_back(amount@ as int),
        ensures
            r == (old(self)@.contains_key(client) && !old(self)@[client].locked),
            r ==> final(self)@ == old(self)@.insert(
                client,
                old(self)@[client].charged_back(amount@ as int),
            ),
            !r ==> final(self)@ == old(self)@,
    {
        match self.accounts.get(&client) {
            Some(a) => if a.locked() {
                return false;
            },
            None => return false,
        }
        self.chargeback(client, amount);
        true
    }

    /// Consumes the projection and returns the accounts.
    pub fn into_accounts(self) -> (r: HashMap<u16, Account>)
        ensures
            account_models(r@) == self@,
    {
        self.accounts
    }
}

impl Default for AccountProjection {
    fn default() -> (r: AccountProjection)
        ensures
            r@ == Map::<u16, AccountModel>::empty(),
    {
        AccountProjection::new()
    }
}

/// Transaction records rebuilt from events.
pub struct TransactionProjection {
    records: HashMap<u32, Transaction>,
}

impl View for TransactionProjection {
    type V = Map<u32, Transaction>;

    closed spec fn view(&self) -> Map<u32, Transaction> {
        self.records@
    }
}

impl TransactionProjection {
    /// No records.
    pub fn new() -> (r: TransactionProjection)
        ensures
            r@ == Map::<u32, Transaction>::empty(),
    {
        TransactionProjection { records: HashMap::new() }
    }

    /// Whether transaction `tx` has a record.
    pub fn has_record(&self, tx: u32) -> (r: bool)
        ensures
            r == self@.contains_key(tx),
    {
        self.records.contains_key(&tx)
    }

    /// The record of transaction `tx`, if any.
    pub fn record(&self, tx: u32) -> (r: Option<&Transaction>)
        ensures
            match r {
                Some(t) => self@.contains_key(tx) && *t == self@[tx],
                None => !self@.contains_key(tx),
            },
    {
        self.records.get(&tx)
    }

    /// Records a valid deposit.
    pub fn deposit(&mut self, client: u16, tx: u32, amount: Amount)
        ensures
            final(self)@ == old(self)@.insert(
                tx,
                Transaction { client, amount, kind: Kind::Deposit, state: State::Valid },
            ),
    {
        self.records.insert(tx, Transaction { client, amount, kind: Kind::Deposit, state: State::Valid });
    }

    /// Records a valid withdrawal.
    pub fn withdrawal(&mut self, client: u16, tx: u32, amount: Amount)
        ensures
            final(self)@ == old(self)@.insert(
                tx,
                Transaction { client, amount, kind: Kind::Withdrawal, state: State::Valid },
            ),
    {
        self.records.insert(
            tx,
            Transaction { client, amount, kind: Kind::Withdrawal, state: State::Valid },
        );
    }

    /// Moves the record of `tx` to `state`; `false` when there is none.
    pub fn set_state(&mut self, tx: u32, state: State) -> (r: bool)
        ensures
            r == old(self)@.contains_key(tx),
            r ==> final(self)@ == with_state(old(self)@, tx, state),
            !r ==> final(self)@ == old(self)@,
    {
        match self.records.remove(&tx) {
            Some(t) => {
                self.records.insert(tx, Transaction { state, ..t });
                assert(final(self)@ =~= with_state(old(self)@, tx, state));
                true
            },
            None => {
                assert(final(self)@ =~= old(self)@);
                false
            },
        }
    }

    /// Marks the record of `tx` as disputed.
    pub fn dispute(&mut self, tx: u32)
        requires
            old(self)@.contains_key(tx),
        ensures
            final(self)@ == with_state(old(self)@, tx, State::Disputed),
    {
        self.set_state(tx, State::Disputed);
    }

    /// Marks the record of `tx` as resolved.
    pub fn resolve(&mut self, tx: u32)
        requires
            old(self)@.contains_key(tx),
        ensures
            final(self)@ == with_state(old(self)@, tx, State::Resolved),
    {
        self.set_state(tx, State::Resolved);
    }

    /// Marks the record of `tx` as charged back.
    pub fn chargeback(&mut self, tx: u32)
        requires
            old(self)@.contains_key(tx),
        ensures
            final(self)@ == with_state(old(self)@, tx, State::Chargedback),
    {
        self.set_state(tx, State::Chargedback);
    }
}

impl Default for TransactionProjection {
    fn default() -> (r: TransactionProjection)
        ensures
            r@ == Map::<u32, Transaction>::empty(),
    {
        TransactionProjection::new()
    }
}

/// The ledger projection: accounts and transaction records, both rebuilt
/// from accepted events.
pub struct LedgerProjection {
    accounts: AccountProjection,
    transactions: TransactionProjection,
}

impl View for LedgerProjection {
    type V = ProjectionModel;

    closed spec fn view(&self) -> ProjectionModel {
        ProjectionModel { transactions: self.transactions@, accounts: self.accounts@ }
    }
}

impl LedgerProjection {
    /// A projection with no history.
    pub fn new() -> (r: LedgerProjection)
        ensures
            r@ == empty_projection(),
    {
        LedgerProjection { accounts: AccountProjection::new(), transactions: TransactionProjection::new() }
    }

    /// Applies an accepted event to both the accounts and the records.
    pub fn apply(&mut self, event: Event)
        requires
            projection_can_apply(old(self)@, event),
        ensures
            final(self)@ == projection_after(old(self)@, event),
    {
        match event {
            Event::Deposited { client, tx, amount } => {
                self.accounts.deposit(client, amount);
                self.transactions.deposit(client, tx, amount);
            },
            Event::Withdrawn { client, tx, amount } => {
                self.accounts.withdrawal(client, amount);
                self.transactions.withdrawal(client, tx, amount);
            },
            Event::DisputeOpened { client, tx, amount } => {
                self.accounts.dispute(client, amount);
                self.transactions.dispute(tx);
            },
            Event::DisputeResolved { client, tx, amount } => {
                self.accounts.resolve(client, amount);
                self.transactions.resolve(tx);
            },
            Event::ChargedBack { client, tx, amount } => {
                self.accounts.chargeback(client, amount);
                self.transactions.chargeback(tx);
            },
        }
    }

    /// The account of `client`, if it exists.
    pub fn account(&self, client: u16) -> (r: Option<&Account>)
        ensures
            match r {
                Some(a) => self@.accounts.contains_key(client) && a@ == self@.accounts[client],
                None => !self@.accounts.contains_key(client),
            },
    {
        self.accounts.account(client)
    }

    /// Whether transaction `tx` has a record.
    pub fn has_record(&self, tx: u32) -> (r: bool)
        ensures
            r == self@.transactions.contains_key(tx),
    {
        self.transactions.has_record(tx)
    }

    /// The record of transaction `tx`, if any.
    pub fn record(&self, tx: u32) -> (r: Option<&Transaction>)
        ensures
            match r {
                Some(t) => self@.transactions.contains_key(tx) && *t == self@.transactions[tx],
                None => !self@.transactions.contains_key(tx),
            },
    {
        self.transactions.record(tx)
    }

    /// Creates a fresh account for `client` unless it has one.
    pub fn ensure_account(&mut self, client: u16)
        ensures
            final(self)@.accounts == old(self)@.accounts.insert(
                client,
                account_or_fresh(old(self)@.accounts, client),
            ),
            final(self)@.transactions == old(self)@.transactions,
    {
        self.accounts.ensure(client);
    }

    /// Holds `amount` if `client` has an unlocked account; `true` when it did.
    pub fn try_hold(&mut self, client: u16, amount: Amount) -> (r: bool)
        requires
            old(self)@.accounts.contains_key(client) ==> old(self)@.accounts[client].can_hold(amount@ as int),
        ensures
            r == (old(self)@.accounts.contains_key(client) && !old(self)@.accounts[client].locked),
            r ==> final(self)@.accounts == old(self)@.accounts.insert(
                client,
                old(self)@.accounts[client].holding(amount@ as int),
            ),
            !r ==> final(self)@.accounts == old(self)@.accounts,
            final(self)@.transactions == old(self)@.transactions,
    {
        self.accounts.try_hold(client, amount)
    }

    /// Releases `amount` if `client` has an unlocked account; `true` when it did.
    pub fn try_release(&mut self, client: u16, amount: Amount) -> (r: bool)
        requires
            old(self)@.accounts.contains_key(client) ==> old(self)@.accounts[client].can_release(amount@ as int),
        ensures
            r == (old(self)@.accounts.contains_key(client) && !old(self)@.accounts[client].locked),
            r ==> final(self)@.accounts == old(self)@.accounts.insert(
                client,
                old(self)@.accounts[client].released(amount@ as int),
            ),
            !r ==> final(self)@.accounts == old(self)@.accounts,
            final(self)@.transactions == old(self)@.transactions,
    {
        self.accounts.try_release(client, amount)
    }

    /// Charges `amount` back if `client` has an unlocked account; `true` when it did.
    pub fn try_charge_back(&mut self, client: u16, amount: Amount) -> (r: bool)
        requires
            old(self)@.accounts.contains_key(client) ==> old(self)@.accounts[client].can_charge_back(amount@ as int),
        ensures
            r == (old(self)@.accounts.contains_key(client) && !old(self)@.accounts[client].locked),
            r ==> final(self)@.accounts == old(self)@.accounts.insert(
                client,
                old(self)@.accounts[client].charged_back(amount@ as int),
            ),
            !r ==> final(self)@.accounts == old(self)@.accounts,
            final(self)@.transactions == old(self)@.transactions,
    {
        self.accounts.try_charge_back(client, amount)
    }

    /// Moves the record of `tx` to `state`; `false` when there is none.
    pub fn set_record_state(&mut self, tx: u32, state: State) -> (r: bool)
        ensures
            r == old(self)@.transactions.contains_key(tx),
            r ==> final(self)@.transactions == with_state(old(self)@.transactions, tx, state),
            !r ==> final(self)@.transactions == old(self)@.transactions,
            final(self)@.accounts == old(self)@.accounts,
    {
        self.transactions.set_state(tx, state)
    }

    /// Consumes the projection and returns the accounts.
    pub fn into_accounts(self) -> (r: HashMap<u16, Account>)
        ensures
            account_models(r@) == self@.accounts,
    {
        self.accounts.into_accounts()
    }
}

impl Default for LedgerProjection {
    fn default() -> (r: LedgerProjection)
        ensures
            r@ == empty_projection(),
    {
        LedgerProjection::new()
    }
}

} // verus!
