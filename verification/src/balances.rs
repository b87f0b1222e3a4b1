//! Balances as sums over transaction records: the amounts an account shows
//! are exactly what its recorded deposits and withdrawals add up to.
use vstd::prelude::*;
use vstd::set::fold::{is_fun_commutative, lemma_fold_empty, lemma_fold_insert};

use crate::account::account_or_fresh;
use crate::command::Command;
use crate::event::{Decision, Event};
use crate::guarantees::owners_have_accounts;
use crate::ledger::{can_step, decide_spec, empty_ledger, ingested, stepped, LedgerModel};
use crate::transaction::Transaction;

verus! {

/// What a record adds to its client's available funds: a deposit counts
/// while it is valid or after its dispute was resolved, a withdrawal always
/// counts against.
pub open spec fn available_part(r: Transaction) -> int {
    if r.kind is Deposit {
        if r.state is Valid || r.state is Resolved {
            r.amount@ as int
        } else {
            0
        }
    } else {
        -(r.amount@ as int)
    }
}

/// What a record adds to its client's held funds: a deposit under dispute.
pub open spec fn held_part(r: Transaction) -> int {
    if r.kind is Deposit && r.state is Disputed {
        r.amount@ as int
    } else {
        0
    }
}

/// What a record adds to its client's deposits: the amount of a deposit,
/// whatever became of it.
pub open spec fn deposit_part(r: Transaction) -> int {
    if r.kind is Deposit {
        r.amount@ as int
    } else {
        0
    }
}

/// What a record adds to its client's withdrawals.
pub open spec fn withdrawal_part(r: Transaction) -> int {
    if r.kind is Withdrawal {
        r.amount@ as int
    } else {
        0
    }
}

/// What a record adds to its client's total: a deposit counts unless it was
/// charged back, a withdrawal always counts against.
pub open spec fn total_part(r: Transaction) -> int {
    if r.kind is Deposit {
        if r.state is Chargedback {
            0
        } else {
            r.amount@ as int
        }
    } else {
        -(r.amount@ as int)
    }
}

/// The step of a sum over the records of `client`.
pub open spec fn add_part(
    txs: Map<u32, Transaction>,
    client: u16,
    part: spec_fn(Transaction) -> int,
) -> spec_fn(int, u32) -> int {
    |acc: int, t: u32| acc + (if txs[t].client == client { part(txs[t]) } else { 0 })
}

/// The sum of `part` over the records in `keys` that belong to `client`.
pub open spec fn client_sum(
    txs: Map<u32, Transaction>,
    keys: Set<u32>,
    client: u16,
    part: spec_fn(Transaction) -> int,
) -> int {
    keys.fold(0int, add_part(txs, client, part))
}

/// The available funds that `client`'s records add up to.
pub open spec fn available_sum(txs: Map<u32, Transaction>, client: u16) -> int {
    client_sum(txs, txs.dom(), client, |r: Transaction| available_part(r))
}

/// The held funds that `client`'s records add up to.
pub open spec fn held_sum(txs: Map<u32, Transaction>, client: u16) -> int {
    client_sum(txs, txs.dom(), client, |r: Transaction| held_part(r))
}

/// The sum of the deposits recorded for `client`.
pub open spec fn deposit_sum(txs: Map<u32, Transaction>, client: u16) -> int {
    client_sum(txs, txs.dom(), client, |r: Transaction| deposit_part(r))
}

/// The sum of the withdrawals recorded for `client`.
pub open spec fn withdrawal_sum(txs: Map<u32, Transaction>, client: u16) -> int {
    client_sum(txs, txs.dom(), client, |r: Transaction| withdrawal_part(r))
}

/// The total that `client`'s records add up to.
pub open spec fn total_sum(txs: Map<u32, Transaction>, client: u16) -> int {
    client_sum(txs, txs.dom(), client, |r: Transaction| total_part(r))
}

/// The sum of the deposits of `client` that `commands` ask for, accepted or
/// not.
pub open spec fn command_deposits(commands: Seq<Command>, client: u16) -> int
    decreases commands.len(),
{
    if commands.len() == 0 {
        0
    } else {
        (match commands[0] {
            Command::Deposit { client: c, amount, .. } => if c == client {
                amount@ as int
            } else {
                0
            },
            _ => 0,
        }) + command_deposits(commands.drop_first(), client)
    }
}

/// Every account's available and held funds are the sums of what its
/// records add (the balances follow the transaction records); only deposits
/// ever leave the valid state.
pub open spec fn balances_follow_records(m: LedgerModel) -> bool {
    &&& m.transactions.dom().finite()
    &&& owners_have_accounts(m.transactions, m.accounts)
    &&& forall|t: u32| #[trigger] m.transactions.contains_key(t) && !(m.transactions[t].state is Valid)
        ==> m.transactions[t].kind is Deposit
    &&& forall|c: u16| #[trigger] m.accounts.contains_key(c) ==> {
        &&& m.accounts[c].available == available_sum(m.transactions, c)
        &&& m.accounts[c].held == held_sum(m.transactions, c)
    }
}

proof fn lemma_add_part_commutative(txs: Map<u32, Transaction>, client: u16, part: spec_fn(Transaction) -> int)
    ensures
        is_fun_commutative(add_part(txs, client, part)),
{
}

/// Adding one key to the keys adds that record's part.
proof fn lemma_sum_insert(
    txs: Map<u32, Transaction>,
    keys: Set<u32>,
    t: u32,
    client: u16,
    part: spec_fn(Transaction) -> int,
)
    requires
        keys.finite(),
        !keys.contains(t),
    ensures
        client_sum(txs, keys.insert(t), client, part) == client_sum(txs, keys, client, part) + (
        if txs[t].client == client {
            part(txs[t])
        } else {
            0
        }),
{
    lemma_add_part_commutative(txs, client, part);
    lemma_fold_insert(keys, 0int, add_part(txs, client, part), t);
}

/// The sum only reads the records under its keys.
proof fn lemma_sum_frame(
    a: Map<u32, Transaction>,
    b: Map<u32, Transaction>,
    keys: Set<u32>,
    client: u16,
    part: spec_fn(Transaction) -> int,
)
    requires
        keys.finite(),
        forall|t: u32| #[trigger] keys.contains(t) ==> a[t] == b[t],
    ensures
        client_sum(a, keys, client, part) == client_sum(b, keys, client, part),
    decreases keys.len(),
{
    if keys.len() == 0 {
        assert(keys =~= Set::<u32>::empty());
        lemma_fold_empty(0int, add_part(a, client, part));
        lemma_fold_empty(0int, add_part(b, client, part));
    } else {
        let t = keys.choose();
        let rest = keys.remove(t);
        assert(rest.insert(t) =~= keys);
        lemma_sum_frame(a, b, rest, client, part);
        lemma_sum_insert(a, rest, t, client, part);
        lemma_sum_insert(b, rest, t, client, part);
    }
}

/// A sum over records none of which belongs to `client` is zero.
proof fn lemma_sum_of_others(
    txs: Map<u32, Transaction>,
    keys: Set<u32>,
    client: u16,
    part: spec_fn(Transaction) -> int,
)
    requires
        keys.finite(),
        forall|t: u32| #[trigger] keys.contains(t) ==> txs[t].client != client,
    ensures
        client_sum(txs, keys, client, part) == 0,
    decreases keys.len(),
{
    if keys.len() == 0 {
        assert(keys =~= Set::<u32>::empty());
        lemma_fold_empty(0int, add_part(txs, client, part));
    } else {
        let t = keys.choose();
        let rest = keys.remove(t);
        assert(rest.insert(t) =~= keys);
        lemma_sum_of_others(txs, rest, client, part);
        lemma_sum_insert(txs, rest, t, client, part);
    }
}

/// Replacing (or adding) the record under `t` changes the sum by the
/// difference of the two records' parts.
proof fn lemma_sum_update(
    txs: Map<u32, Transaction>,
    t: u32,
    r: Transaction,
    client: u16,
    part: spec_fn(Transaction) -> int,
)
    requires
        txs.dom().finite(),
    ensures
        client_sum(txs.insert(t, r), txs.insert(t, r).dom(), client, part) == client_sum(
            txs,
            txs.dom(),
            client,
            part,
        ) - (if txs.contains_key(t) && txs[t].client == client {
            part(txs[t])
        } else {
            0
        }) + (if r.client == client {
            part(r)
        } else {
            0
        }),
{
    let after = txs.insert(t, r);
    let rest = txs.dom().remove(t);
    assert(rest.insert(t) =~= after.dom());
    lemma_sum_insert(after, rest, t, client, part);
    lemma_sum_frame(after, txs, rest, client, part);
    if txs.contains_key(t) {
        assert(rest.insert(t) =~= txs.dom());
        lemma_sum_insert(txs, rest, t, client, part);
    } else {
        assert(rest =~= txs.dom());
    }
}

/// An empty ledger's balances follow its (no) records.
pub proof fn lemma_empty_ledger_balances()
    ensures
        balances_follow_records(empty_ledger()),
{
}

/// One ingested command keeps the balances following the records.
proof fn lemma_step_keeps_balances(m: LedgerModel, command: Command)
    requires
        balances_follow_records(m),
        can_step(m, command),
    ensures
        balances_follow_records(stepped(m, command)),
{
    let avail = |r: Transaction| available_part(r);
    let held = |r: Transaction| held_part(r);
    let txs = m.transactions;
    if let Decision::Approved(e) = decide_spec(m, command) {
        let next = stepped(m, command);
        let client = e.client();
        let t = e.tx();
        let r = next.transactions[t];
        assert(next.transactions == txs.insert(t, r));
        assert forall|c: u16| #[trigger] next.accounts.contains_key(c) implies {
            &&& next.accounts[c].available == available_sum(next.transactions, c)
            &&& next.accounts[c].held == held_sum(next.transactions, c)
        } by {
            lemma_sum_update(txs, t, r, c, avail);
            lemma_sum_update(txs, t, r, c, held);
            if c == client && !m.accounts.contains_key(c) {
                // A deposit opening the account: the client had no records.
                assert forall|u: u32| #[trigger] txs.dom().contains(u) implies txs[u].client != c by {
                    if txs[u].client == c {
                        assert(txs.contains_key(u));
                    }
                }
                lemma_sum_of_others(txs, txs.dom(), c, avail);
                lemma_sum_of_others(txs, txs.dom(), c, held);
            }
        }
        assert forall|u: u32| #[trigger] next.transactions.contains_key(u) implies next.accounts.contains_key(
            next.transactions[u].client,
        ) by {
            if u != t {
                assert(txs.contains_key(u));
            }
        }
        assert forall|u: u32| #[trigger] next.transactions.contains_key(u) && !(next.transactions[u].state is Valid)
            implies next.transactions[u].kind is Deposit by {
            if u != t {
                assert(txs.contains_key(u));
            }
        }
    }
}

/// Balances follow the transaction records: if every account's available and
/// held funds are the sums of what its records add, ingesting any commands
/// keeps it so. With `lemma_empty_ledger_balances`, this holds for every
/// ledger built by ingesting commands into a new ledger.
pub proof fn lemma_ingest_keeps_balances(m: LedgerModel, commands: Seq<Command>)
    requires
        balances_follow_records(m),
        ingested(m, commands) is Some,
    ensures
        balances_follow_records(ingested(m, commands).unwrap()),
    decreases commands.len(),
{
    if commands.len() > 0 {
        lemma_step_keeps_balances(m, commands[0]);
        lemma_ingest_keeps_balances(stepped(m, commands[0]), commands.drop_first());
    }
}

/// When balances follow the records, a resolve or chargeback that the ledger
/// accepts never takes more from held funds than they hold.
pub proof fn lemma_disputed_amount_is_held(m: LedgerModel, command: Command)
    requires
        balances_follow_records(m),
        command is Resolve || command is Chargeback,
    ensures
        decide_spec(m, command) matches Decision::Approved(e) ==> m.accounts.contains_key(e.client())
            && m.accounts[e.client()].held >= e.amount()@,
{
    if let Decision::Approved(e) = decide_spec(m, command) {
        let t = e.tx();
        assert(m.transactions.contains_key(t));
        lemma_sum_covers(m.transactions, m.transactions.dom(), t, e.client(), |r: Transaction| held_part(r));
    }
}

/// When balances follow the records, ingesting a command can fail only by
/// arithmetic range: a deposit or a resolution that would push available
/// funds past the largest balance, or a dispute that would push available
/// funds below the smallest balance or held funds past the largest amount.
/// Withdrawals, chargebacks and ignored commands always succeed.
pub proof fn lemma_step_fails_only_on_overflow(m: LedgerModel, command: Command)
    requires
        balances_follow_records(m),
    ensures
        can_step(m, command) <==> match decide_spec(m, command) {
            Decision::Approved(Event::Deposited { client, amount, .. }) =>
                account_or_fresh(m.accounts, client).available + amount@ <= i128::MAX,
            Decision::Approved(Event::DisputeOpened { client, amount, .. }) =>
                m.accounts[client].available - amount@ >= i128::MIN
                && m.accounts[client].held + amount@ <= u64::MAX,
            Decision::Approved(Event::DisputeResolved { client, amount, .. }) =>
                m.accounts[client].available + amount@ <= i128::MAX,
            _ => true,
        },
{
    if let Decision::Approved(e) = decide_spec(m, command) {
        let t = e.tx();
        if !(e is Deposited) && !(e is Withdrawn) {
            assert(m.transactions.contains_key(t));
            assert(m.accounts.contains_key(m.transactions[t].client));
        }
        if e is DisputeResolved || e is ChargedBack {
            lemma_disputed_amount_is_held(m, command);
        }
    }
}


/// A sum of parts that are each no larger than other parts is no larger.
proof fn lemma_sum_monotone(
    txs: Map<u32, Transaction>,
    keys: Set<u32>,
    client: u16,
    f: spec_fn(Transaction) -> int,
    g: spec_fn(Transaction) -> int,
)
    requires
        keys.finite(),
        forall|r: Transaction| #[trigger] f(r) <= g(r),
    ensures
        client_sum(txs, keys, client, f) <= client_sum(txs, keys, client, g),
    decreases keys.len(),
{
    if keys.len() == 0 {
        assert(keys =~= Set::<u32>::empty());
        lemma_fold_empty(0int, add_part(txs, client, f));
        lemma_fold_empty(0int, add_part(txs, client, g));
    } else {
        let t = keys.choose();
        let rest = keys.remove(t);
        assert(rest.insert(t) =~= keys);
        lemma_sum_monotone(txs, rest, client, f, g);
        lemma_sum_insert(txs, rest, t, client, f);
        lemma_sum_insert(txs, rest, t, client, g);
        assert(f(txs[t]) <= g(txs[t]));
    }
}

/// The sum of parts that add up is the sum of the two sums.
proof fn lemma_sum_add(
    txs: Map<u32, Transaction>,
    keys: Set<u32>,
    client: u16,
    f: spec_fn(Transaction) -> int,
    g: spec_fn(Transaction) -> int,
    h: spec_fn(Transaction) -> int,
)
    requires
        keys.finite(),
        forall|r: Transaction| #[trigger] h(r) == f(r) + g(r),
    ensures
        client_sum(txs, keys, client, h) == client_sum(txs, keys, client, f) + client_sum(
            txs,
            keys,
            client,
            g,
        ),
    decreases keys.len(),
{
    if keys.len() == 0 {
        assert(keys =~= Set::<u32>::empty());
        lemma_fold_empty(0int, add_part(txs, client, f));
        lemma_fold_empty(0int, add_part(txs, client, g));
        lemma_fold_empty(0int, add_part(txs, client, h));
    } else {
        let t = keys.choose();
        let rest = keys.remove(t);
        assert(rest.insert(t) =~= keys);
        lemma_sum_add(txs, rest, client, f, g, h);
        lemma_sum_insert(txs, rest, t, client, f);
        lemma_sum_insert(txs, rest, t, client, g);
        lemma_sum_insert(txs, rest, t, client, h);
        assert(h(txs[t]) == f(txs[t]) + g(txs[t]));
    }
}

/// A sum of nonnegative parts is at least the part of any one of its records.
proof fn lemma_sum_covers(
    txs: Map<u32, Transaction>,
    keys: Set<u32>,
    t: u32,
    client: u16,
    part: spec_fn(Transaction) -> int,
)
    requires
        keys.finite(),
        keys.contains(t),
        txs[t].client == client,
        forall|r: Transaction| #[trigger] part(r) >= 0,
    ensures
        client_sum(txs, keys, client, part) >= part(txs[t]),
{
    let zero = |r: Transaction| 0int;
    let rest = keys.remove(t);
    assert(rest.insert(t) =~= keys);
    lemma_sum_insert(txs, rest, t, client, part);
    lemma_sum_zero(txs, rest, client);
    lemma_sum_monotone(txs, rest, client, zero, part);
}

/// A sum of zeros is zero.
proof fn lemma_sum_zero(txs: Map<u32, Transaction>, keys: Set<u32>, client: u16)
    requires
        keys.finite(),
    ensures
        client_sum(txs, keys, client, |r: Transaction| 0int) == 0,
{
    let zero = |r: Transaction| 0int;
    lemma_sum_add(txs, keys, client, zero, zero, zero);
}

/// The bounds that the sums put on an account: its total is at most what
/// was deposited less what was withdrawn, its available funds are at least
/// minus what was withdrawn, its held funds are at most what was deposited
/// less any valid deposit's amount, and both sums are nonnegative.
proof fn lemma_account_within_sums(m: LedgerModel, client: u16)
    requires
        balances_follow_records(m),
        m.accounts.contains_key(client),
    ensures
        m.accounts[client].available + m.accounts[client].held <= deposit_sum(m.transactions, client)
            - withdrawal_sum(m.transactions, client),
        m.accounts[client].available >= -withdrawal_sum(m.transactions, client),
        m.accounts[client].held >= 0,
        withdrawal_sum(m.transactions, client) >= 0,
        deposit_sum(m.transactions, client) >= m.accounts[client].held,
        forall|t: u32| #[trigger] m.transactions.contains_key(t) && m.transactions[t].client == client
            && m.transactions[t].spec_is_disputable() ==> m.accounts[client].held
            + m.transactions[t].amount@ <= deposit_sum(m.transactions, client),
{
    let txs = m.transactions;
    let keys = txs.dom();
    let avail = |r: Transaction| available_part(r);
    let held = |r: Transaction| held_part(r);
    let dep = |r: Transaction| deposit_part(r);
    let wd = |r: Transaction| withdrawal_part(r);
    let zero = |r: Transaction| 0int;
    let kept = |r: Transaction| available_part(r) + held_part(r);
    let net = |r: Transaction| deposit_part(r) - withdrawal_part(r);
    let neg_wd = |r: Transaction| -withdrawal_part(r);
    let unheld = |r: Transaction| deposit_part(r) - held_part(r);
    lemma_sum_add(txs, keys, client, avail, held, kept);
    lemma_sum_add(txs, keys, client, net, wd, dep);
    lemma_sum_monotone(txs, keys, client, kept, net);
    lemma_sum_add(txs, keys, client, neg_wd, wd, zero);
    lemma_sum_zero(txs, keys, client);
    lemma_sum_monotone(txs, keys, client, neg_wd, avail);
    lemma_sum_monotone(txs, keys, client, zero, held);
    lemma_sum_monotone(txs, keys, client, zero, wd);
    lemma_sum_add(txs, keys, client, unheld, held, dep);
    assert forall|t: u32| #[trigger] txs.contains_key(t) && txs[t].client == client
        && txs[t].spec_is_disputable() implies m.accounts[client].held + txs[t].amount@
        <= deposit_sum(txs, client) by {
        lemma_sum_covers(txs, keys, t, client, unheld);
    }
}

/// Ingesting `commands` from `m` keeps every client's recorded deposits and
/// the deposits still to come within the largest amount, and no client has
/// withdrawn more than it deposited.
spec fn deposits_stay_bounded(m: LedgerModel, commands: Seq<Command>) -> bool {
    &&& balances_follow_records(m)
    &&& forall|c: u16| #[trigger] deposit_sum(m.transactions, c) + command_deposits(commands, c)
        <= u64::MAX && withdrawal_sum(m.transactions, c) <= deposit_sum(m.transactions, c)
}

proof fn lemma_command_deposits_nonnegative(commands: Seq<Command>, client: u16)
    ensures
        command_deposits(commands, client) >= 0,
    decreases commands.len(),
{
    if commands.len() > 0 {
        lemma_command_deposits_nonnegative(commands.drop_first(), client);
    }
}

/// A client without an account has no records, so its sums are zero.
proof fn lemma_sums_without_account(m: LedgerModel, client: u16)
    requires
        balances_follow_records(m),
        !m.accounts.contains_key(client),
    ensures
        deposit_sum(m.transactions, client) == 0,
        withdrawal_sum(m.transactions, client) == 0,
{
    let txs = m.transactions;
    assert forall|u: u32| #[trigger] txs.dom().contains(u) implies txs[u].client != client by {
        assert(txs.contains_key(u));
    }
    lemma_sum_of_others(txs, txs.dom(), client, |r: Transaction| deposit_part(r));
    lemma_sum_of_others(txs, txs.dom(), client, |r: Transaction| withdrawal_part(r));
}

/// One command under the bound can be ingested, and the rest stay under it.
proof fn lemma_bounded_step(m: LedgerModel, commands: Seq<Command>)
    requires
        commands.len() > 0,
        deposits_stay_bounded(m, commands),
    ensures
        can_step(m, commands[0]),
        deposits_stay_bounded(stepped(m, commands[0]), commands.drop_first()),
{
    let command = commands[0];
    let rest = commands.drop_first();
    let txs = m.transactions;
    let dep = |r: Transaction| deposit_part(r);
    let wd = |r: Transaction| withdrawal_part(r);
    assert forall|c: u16| #[trigger] command_deposits(commands, c) >= command_deposits(rest, c) by {
    }
    lemma_step_fails_only_on_overflow(m, command);
    if let Decision::Approved(e) = decide_spec(m, command) {
        let client = e.client();
        let t = e.tx();
        let x = e.amount()@ as int;
        assert(deposit_sum(txs, client) + command_deposits(commands, client) <= u64::MAX);
        lemma_command_deposits_nonnegative(commands, client);
        if m.accounts.contains_key(client) {
            lemma_account_within_sums(m, client);
        }
        if !(e is Deposited) && !(e is Withdrawn) {
            assert(txs.contains_key(t));
            assert(m.accounts.contains_key(txs[t].client));
        }
        assert(can_step(m, command));
        let next = stepped(m, command);
        let r = next.transactions[t];
        assert(next.transactions == txs.insert(t, r));
        lemma_step_keeps_balances(m, command);
        assert forall|c: u16| #[trigger] deposit_sum(next.transactions, c) + command_deposits(rest, c)
            <= u64::MAX && withdrawal_sum(next.transactions, c) <= deposit_sum(next.transactions, c) by {
            lemma_sum_update(txs, t, r, c, dep);
            lemma_sum_update(txs, t, r, c, wd);
            assert(deposit_sum(txs, c) + command_deposits(commands, c) <= u64::MAX);
            assert(withdrawal_sum(txs, c) <= deposit_sum(txs, c));
            assert(command_deposits(commands, c) >= command_deposits(rest, c));
        }
    } else {
        assert forall|c: u16| #[trigger] deposit_sum(txs, c) + command_deposits(rest, c) <= u64::MAX
            && withdrawal_sum(txs, c) <= deposit_sum(txs, c) by {
            assert(deposit_sum(txs, c) + command_deposits(commands, c) <= u64::MAX);
            assert(command_deposits(commands, c) >= command_deposits(rest, c));
        }
    }
}

proof fn lemma_bounded_ingest(m: LedgerModel, commands: Seq<Command>)
    requires
        deposits_stay_bounded(m, commands),
    ensures
        ingested(m, commands) is Some,
    decreases commands.len(),
{
    if commands.len() > 0 {
        lemma_bounded_step(m, commands);
        lemma_bounded_ingest(stepped(m, commands[0]), commands.drop_first());
    }
}

/// Bounded deposits never overflow: when the deposits that `commands` ask
/// for add up to at most the largest amount for every client, a new ledger
/// ingests all of them without leaving the ranges of the balances.
pub proof fn lemma_bounded_deposits_never_overflow(commands: Seq<Command>)
    requires
        forall|c: u16| #[trigger] command_deposits(commands, c) <= u64::MAX,
    ensures
        ingested(empty_ledger(), commands) is Some,
{
    let m = empty_ledger();
    lemma_empty_ledger_balances();
    assert forall|c: u16| #[trigger] deposit_sum(m.transactions, c) + command_deposits(commands, c)
        <= u64::MAX && withdrawal_sum(m.transactions, c) <= deposit_sum(m.transactions, c) by {
        lemma_sums_without_account(m, c);
        assert(command_deposits(commands, c) <= u64::MAX);
    }
    lemma_bounded_ingest(m, commands);
}

/// An account's total follows its records: it is what the client deposited,
/// less the deposits that were charged back, less what it withdrew.
pub proof fn lemma_total_follows_records(m: LedgerModel, client: u16)
    requires
        balances_follow_records(m),
        m.accounts.contains_key(client),
    ensures
        m.accounts[client].total() == total_sum(m.transactions, client),
{
    let txs = m.transactions;
    lemma_sum_add(
        txs,
        txs.dom(),
        client,
        |r: Transaction| available_part(r),
        |r: Transaction| held_part(r),
        |r: Transaction| total_part(r),
    );
}

} // verus!
