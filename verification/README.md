# rust_challenge

A payments ledger that reads a stream of deposits, withdrawals, disputes,
resolves and chargebacks and reports every client's account, written in Verus.

- `src/` is the verified library:
  - `amount.rs` holds money as ten-thousandths, read from and written to text through `rust_decimal`;
  - `decimal.rs` holds the calls into `rust_decimal` and what they are trusted to do;
  - `digits.rs` describes decimal digit strings;
  - `types.rs` holds events and accounts;
  - `ledger.rs` holds the model of the ledger: the effect of one event and the invariants;
  - `laws.rs` holds the laws relating events;
  - `engine.rs` holds the engine, proved to follow the model;
  - `input.rs` turns the fields of an input row into an event;
  - `output.rs` builds the output rows;
  - `error.rs` holds the I/O error type.
- `app/` is the command-line program: CSV reading and writing, files, standard output.
- `tests/` runs the library on concrete scenarios.
