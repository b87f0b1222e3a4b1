# themis

A financial transaction ledger, verified with Verus. It reads transaction
commands (`deposit`, `withdrawal`, `dispute`, `resolve`, `chargeback`),
applies the accepted ones to client accounts, and outputs the account state.

## Layout

- `src/` — the verified library.
  - `amount.rs`, `funds.rs`, `text.rs`: exact decimal amounts (units of
    0.0001): parsing and rendering, with the round trip proved.
  - `balance.rs`, `account.rs`: balances (available / held) and accounts,
    which lock permanently after a chargeback.
  - `transaction.rs`: transaction records and their dispute lifecycle.
  - `command.rs`, `event.rs`, `event_log.rs`: requests, accepted facts, and
    the append-only log.
  - `ledger.rs`: decision, recording, ingestion and replay, specified over a
    mathematical model of the ledger.
  - `projection.rs`, `decider.rs`, `processor.rs`: the projection-based
    variant of the same rules.
  - `store.rs`: event stores.
  - `csv/`: input rows to commands, accounts to output rows.
  - `guarantees.rs`, `balances.rs`: properties across commands: locked
    accounts never change, duplicate IDs are ignored, the log is the sole
    source of truth, balances are the sums of the transaction records, an
    account exists exactly when a deposit names its client, per-client
    deposits within the largest amount never overflow a balance, and the
    different parts agree with each other.
- `app/` — the command-line program: CSV and JSON-lines I/O around the
  library.
- `tests/` — tests of the library.
