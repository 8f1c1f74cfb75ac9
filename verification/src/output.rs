//! The rows of the output: one per account, money written to four places.
use vstd::prelude::*;

use crate::amount::{Amount, SCALE};
use crate::digits::fixed_point_text;
use crate::types::{Account, ClientId};

verus! {

/// The text of a balance in an output row.
pub open spec fn amount_text(units: int) -> Seq<char> {
    fixed_point_text(units, SCALE as nat)
}

/// One output row: the client, its balances as text, and the lock.
pub struct OutputRow {
    pub client: ClientId,
    pub available: String,
    pub held: String,
    pub total: String,
    pub locked: bool,
}

/// Writes a balance with exactly four decimal places.
fn format_amount(amount: Amount) -> (r: String)
    requires
        0 <= amount@ <= crate::amount::MAX_BALANCE,
    ensures
        r@ == amount_text(amount@),
{
    amount.to_text()
}

impl OutputRow {
    /// The output row of an account.
    pub fn from_account(account: &Account) -> (r: OutputRow)
        ensures
            r.client == account@.client,
            r.available@ == amount_text(account@.available),
            r.held@ == amount_text(account@.held),
            r.total@ == amount_text(account@.total()),
            r.locked == account@.locked,
    {
        let total = account.total();
        OutputRow {
            client: account.client(),
            available: format_amount(account.available()),
            held: format_amount(account.held()),
            total: format_amount(total),
            locked: account.locked(),
        }
    }
}

/// The sink of account snapshots: standard output, as CSV.
pub struct StdoutProducer;

impl StdoutProducer {
    /// A producer writing to standard output.
    pub fn new() -> (r: StdoutProducer)
        ensures
            r == StdoutProducer,
    {
        StdoutProducer
    }
}

impl Default for StdoutProducer {
    fn default() -> (r: StdoutProducer)
        ensures
            r == StdoutProducer,
    {
        StdoutProducer::new()
    }
}

} // verus!
