//! The events the engine consumes and the accounts it keeps.
use vstd::prelude::*;

use crate::amount::{Amount, MAX_BALANCE};

verus! {

/// A client's identifier.
pub type ClientId = u16;

/// A transaction's identifier, unique across all clients.
pub type TxId = u32;

/// One payment event of the input stream.
#[derive(Clone, Copy, Debug, PartialEq, Eq, Structural)]
pub enum Event {
    Deposit { client: ClientId, tx: TxId, amount: Amount },
    Withdrawal { client: ClientId, tx: TxId, amount: Amount },
    Dispute { client: ClientId, tx: TxId },
    Resolve { client: ClientId, tx: TxId },
    Chargeback { client: ClientId, tx: TxId },
}

impl Event {
    /// The client that the event names.
    pub open spec fn client_id(self) -> ClientId {
        match self {
            Event::Deposit { client, .. } => client,
            Event::Withdrawal { client, .. } => client,
            Event::Dispute { client, .. } => client,
            Event::Resolve { client, .. } => client,
            Event::Chargeback { client, .. } => client,
        }
    }

    /// The client that the event names.
    pub fn client(&self) -> (r: ClientId)
        ensures
            r == self.client_id(),
    {
        match self {
            Event::Deposit { client, .. } => *client,
            Event::Withdrawal { client, .. } => *client,
            Event::Dispute { client, .. } => *client,
            Event::Resolve { client, .. } => *client,
            Event::Chargeback { client, .. } => *client,
        }
    }
}

/// The mathematical state of an account: balances in ten-thousandths.
pub struct AccountView {
    pub client: ClientId,
    pub available: int,
    pub held: int,
    pub locked: bool,
}

impl AccountView {
    /// The account of `client` as its first event opens it: empty and unlocked.
    pub open spec fn fresh(client: ClientId) -> AccountView {
        AccountView { client, available: 0, held: 0, locked: false }
    }

    /// Available plus held funds.
    pub open spec fn total(self) -> int {
        self.available + self.held
    }

    /// Balances are non-negative and their sum stays within the decimal range.
    pub open spec fn balanced(self) -> bool {
        &&& 0 <= self.available
        &&& 0 <= self.held
        &&& self.available + self.held <= MAX_BALANCE
    }
}

/// A client's account: funds available to withdraw, funds held by open
/// disputes, and whether a chargeback has frozen it.
#[derive(Clone, Copy, Debug, PartialEq, Eq, Structural)]
pub struct Account {
    client: ClientId,
    available: Amount,
    held: Amount,
    locked: bool,
}

impl View for Account {
    type V = AccountView;

    closed spec fn view(&self) -> AccountView {
        AccountView {
            client: self.client,
            available: self.available@,
            held: self.held@,
            locked: self.locked,
        }
    }
}

impl Account {
    #[verifier::type_invariant]
    spec fn balanced_inv(self) -> bool {
        self@.balanced()
    }

    /// An empty, unlocked account for `client`.
    pub(crate) fn new(client: ClientId) -> (r: Account)
        ensures
            r@ == AccountView::fresh(client),
    {
        Account { client, available: Amount::zero(), held: Amount::zero(), locked: false }
    }

    /// Sets the balances and the lock of the account, keeping its client.
    pub(crate) fn set(&mut self, available: i128, held: i128, locked: bool)
        requires
            0 <= available,
            0 <= held,
            available + held <= MAX_BALANCE,
        ensures
            final(self)@ == (AccountView {
                client: old(self)@.client,
                available: available as int,
                held: held as int,
                locked,
            }),
    {
        *self = Account {
            client: self.client,
            available: Amount::from_units(available),
            held: Amount::from_units(held),
            locked,
        };
    }

    /// The client that owns the account.
    pub fn client(&self) -> (r: ClientId)
        ensures
            r == self@.client,
    {
        self.client
    }

    /// Funds available for withdrawal.
    pub fn available(&self) -> (r: Amount)
        ensures
            r@ == self@.available,
    {
        self.available
    }

    /// Funds held by open disputes.
    pub fn held(&self) -> (r: Amount)
        ensures
            r@ == self@.held,
    {
        self.held
    }

    /// Whether a chargeback has frozen the account.
    pub fn locked(&self) -> (r: bool)
        ensures
            r == self@.locked,
    {
        self.locked
    }

    /// Available plus held funds (which are never negative, and never exceed
    /// the decimal range).
    pub fn total(&self) -> (r: Amount)
        ensures
            r@ == self@.total(),
            self@.balanced(),
    {
        proof {
            use_type_invariant(self);
        }
        Amount::from_units(self.available.units + self.held.units)
    }
}

} // verus!
