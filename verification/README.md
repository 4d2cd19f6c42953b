# transactions_engine

A payments engine: it reads transactions (deposits, withdrawals, disputes,
resolves and chargebacks) as CSV rows, applies them to client accounts, and
writes the final state of every account as CSV.

The library under `src/` is verified with Verus:

- `amount`: fixed-point amounts with four decimal places, their parsing from
  text and bytes, their text, and checked arithmetic.
- `account`: a client's available and held funds and lock, and the account
  operations, each stated as an outcome over the old account.
- `transaction`: transaction types and rows read from `csv::ByteRecord`s,
  field trimming and id parsing, and the records kept of deposits.
- `engine`: the ledger of accounts and deposit records, and what each row does
  to it; laws on the lock, on clients' independence, on disputes, and on the
  ledger's well-formedness.
- `process`: reading a whole CSV input into records (through the csv crate)
  and applying the rows they make to a fresh ledger, noting skipped records.
- `error`: the error type, its model, and its messages.
- `text`: decimal rendering and the `String`/`str` operations used.

`app/` holds the command-line program: reading the input file, printing the
skipped records, and writing the output rows as CSV with serde.
