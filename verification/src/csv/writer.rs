//! Accounts to output rows.
use vstd::prelude::*;

use crate::account::{Account, AccountModel, Accounts};
use crate::amount::{amount_text, lemma_amount_text_reads, reads_as};
use crate::funds::{funds_text, lemma_funds_text_reads};

verus! {

/// An account as an output row. Monetary values are decimal text with four
/// decimal places, never floats, so they are exact.
pub struct OutputRow {
    pub client: u16,
    pub available: String,
    pub held: String,
    pub total: String,
    pub locked: bool,
}

/// The row shows `account`.
pub open spec fn row_shows(row: OutputRow, account: AccountModel) -> bool {
    &&& row.client == account.client
    &&& row.available@ == funds_text(account.available)
    &&& row.held@ == amount_text(account.held as u64)
    &&& row.total@ == funds_text(account.total())
    &&& row.locked == account.locked
}

/// A row shows its account: its client and locked flag are the account's,
/// and its available, held and total columns read as the account's
/// available funds, held funds and their sum.
pub proof fn lemma_row_reads(row: OutputRow, account: AccountModel)
    requires
        row_shows(row, account),
        0 <= account.held <= u64::MAX,
    ensures
        row.client == account.client,
        row.locked == account.locked,
        reads_as(row.available@, account.available),
        reads_as(row.held@, account.held),
        reads_as(row.total@, account.available + account.held),
{
    lemma_funds_text_reads(account.available);
    lemma_amount_text_reads(account.held as u64);
    lemma_funds_text_reads(account.total());
}

/// Every account's total fits the range of a balance.
pub open spec fn totals_fit(accounts: Map<u16, AccountModel>) -> bool {
    forall|c: u16| #[trigger] accounts.contains_key(c) ==> accounts[c].total() <= i128::MAX
}

impl OutputRow {
    /// The row of `account`.
    pub fn from_account(account: &Account) -> (r: OutputRow)
        requires
            account@.total() <= i128::MAX,
        ensures
            row_shows(r, account@),
    {
        proof {
            account.lemma_ranges();
        }
        OutputRow {
            client: account.client(),
            available: account.available().to_string(),
            held: account.held().to_string(),
            total: account.total().to_string(),
            locked: account.locked(),
        }
    }
}

/// Whether every account's total fits the range of a balance.
pub fn all_totals_fit(accounts: &Accounts) -> (r: bool)
    ensures
        r == totals_fit(accounts@),
{
    let mut c: u32 = 0;
    while c <= 0xffff
        invariant
            c <= 0x10000,
            forall|d: u16| d < c && #[trigger] accounts@.contains_key(d) ==> accounts@[d].total() <= i128::MAX,
        decreases 0x10000 - c,
    {
        let client: u16 = c as u16;
        match accounts.get(&client) {
            Some(account) => {
                proof {
                    account.lemma_ranges();
                }
                let available = account.available().units();
                let held = account.held().units();
                if available > i128::MAX - (held as i128) {
                    return false;
                }
            },
            None => {},
        }
        c = c + 1;
    }
    true
}

/// The rows of all accounts, sorted by client ID.
pub fn output_rows(accounts: &Accounts) -> (r: Vec<OutputRow>)
    requires
        totals_fit(accounts@),
    ensures
        forall|i: int, j: int| 0 <= i < j < r@.len() ==> r@[i].client < r@[j].client,
        forall|i: int| 0 <= i < r@.len() ==> accounts@.contains_key(#[trigger] r@[i].client)
            && row_shows(r@[i], accounts@[r@[i].client]),
        forall|c: u16| #[trigger] accounts@.contains_key(c) ==> exists|i: int| 0 <= i < r@.len() && r@[i].client == c,
{
    let mut rows: Vec<OutputRow> = Vec::new();
    let mut c: u32 = 0;
    while c <= 0xffff
        invariant
            c <= 0x10000,
            totals_fit(accounts@),
            forall|i: int, j: int| 0 <= i < j < rows@.len() ==> rows@[i].client < rows@[j].client,
            forall|i: int| 0 <= i < rows@.len() ==> rows@[i].client < c,
            forall|i: int| 0 <= i < rows@.len() ==> accounts@.contains_key(#[trigger] rows@[i].client)
                && row_shows(rows@[i], accounts@[rows@[i].client]),
            forall|d: u16| d < c && #[trigger] accounts@.contains_key(d) ==> exists|i: int| 0 <= i < rows@.len() && rows@[i].client == d,
        decreases 0x10000 - c,
    {
        let client: u16 = c as u16;
        match accounts.get(&client) {
            Some(account) => {
                let row = OutputRow::from_account(account);
                let ghost before = rows@;
                rows.push(row);
                proof {
                    assert(rows@[rows@.len() - 1] == row);
                    assert forall|d: u16| d < c + 1 && #[trigger] accounts@.contains_key(d) implies exists|i: int| 0 <= i < rows@.len() && rows@[i].client == d by {
                        if d < c {
                            let i = choose|i: int| 0 <= i < before.len() && before[i].client == d;
                            assert(rows@[i] == before[i]);
                        } else {
                            assert(rows@[rows@.len() - 1].client == d);
                        }
                    }
                }
            },
            None => {},
        }
        c = c + 1;
    }
    rows
}

} // verus!
