//! The engine: applies events one at a time to the accounts and the record of
//! transaction ids.
use std::collections::HashMap;

use vstd::prelude::*;

use crate::amount::{Amount, MAX_BALANCE};
use crate::ledger::{DepositState, Ledger, TxView};
use crate::types::{Account, AccountView, ClientId, Event, TxId};

verus! {

broadcast use vstd::std_specs::hash::group_hash_axioms;

/// A deposit that took effect: whose it is, how much, and its dispute state.
#[derive(Clone, Copy, Debug, PartialEq, Eq, Structural)]
pub struct DepositRecord {
    pub client: ClientId,
    pub amount: Amount,
    pub state: DepositState,
}

/// What the engine keeps under a transaction id.
#[derive(Clone, Copy, Debug, PartialEq, Eq, Structural)]
pub enum TxRecord {
    Deposit(DepositRecord),
    Consumed,
}

impl View for TxRecord {
    type V = TxView;

    open spec fn view(&self) -> TxView {
        match self {
            TxRecord::Deposit(d) => TxView::Deposit {
                client: d.client,
                amount: d.amount@,
                state: d.state,
            },
            TxRecord::Consumed => TxView::Consumed,
        }
    }
}

/// The payments engine: accounts by client, the order in which clients first
/// appeared, and the record of every transaction id taken.
pub struct Engine {
    accounts: HashMap<ClientId, Account>,
    clients: Vec<ClientId>,
    txs: HashMap<TxId, TxRecord>,
}

impl View for Engine {
    type V = Ledger;

    closed spec fn view(&self) -> Ledger {
        Ledger {
            accounts: self.accounts@.map_values(|a: Account| a@),
            txs: self.txs@.map_values(|r: TxRecord| r@),
        }
    }
}

impl Engine {
    /// The list of clients names each account exactly once.
    closed spec fn clients_listed(&self) -> bool {
        &&& self.clients@.no_duplicates()
        &&& forall|i: int|
            0 <= i < self.clients@.len() ==> self.accounts@.contains_key(#[trigger] self.clients@[i])
        &&& forall|c: ClientId| #[trigger] self.accounts@.contains_key(c) ==> self.clients@.contains(c)
    }

    /// The engine's internal structure is sound and its ledger consistent.
    pub closed spec fn wf(&self) -> bool {
        &&& self.clients_listed()
        &&& self@.consistent()
    }

    /// An engine with no accounts and no transactions.
    pub fn new() -> (r: Engine)
        ensures
            r.wf(),
            r@ == Ledger::empty(),
            r@.consistent(),
    {
        let r = Engine { accounts: HashMap::new(), clients: Vec::new(), txs: HashMap::new() };
        assert(r@.accounts =~= Map::empty());
        assert(r@.txs =~= Map::empty());
        r
    }

    /// Replaces the account of `client` and the record of `tx`.
    fn commit(&mut self, client: ClientId, account: Account, tx: TxId, record: TxRecord)
        requires
            old(self).clients_listed(),
            old(self)@.accounts.contains_key(client),
        ensures
            final(self).clients_listed(),
            final(self)@ == old(self)@.set_account(client, account@).set_tx(tx, record@),
    {
        self.accounts.insert(client, account);
        self.txs.insert(tx, record);
        assert(self@.accounts =~= old(self)@.accounts.insert(client, account@));
        assert(self@.txs =~= old(self)@.txs.insert(tx, record@));
    }

    /// Replaces the record of `tx`.
    fn commit_tx(&mut self, tx: TxId, record: TxRecord)
        requires
            old(self).clients_listed(),
        ensures
            final(self).clients_listed(),
            final(self)@ == old(self)@.set_tx(tx, record@),
    {
        self.txs.insert(tx, record);
        assert(self@.txs =~= old(self)@.txs.insert(tx, record@));
        assert(self@.accounts =~= old(self)@.accounts);
    }

    /// The account of `client`, which exists.
    fn existing_account(&self, client: ClientId) -> (r: Account)
        requires
            self@.accounts.contains_key(client),
        ensures
            r@ == self@.accounts[client],
    {
        *self.accounts.get(&client).unwrap()
    }
}


impl Engine {
    /// The amount of the deposit recorded under `tx` when it belongs to
    /// `client` and is in state `expected`.
    fn require_deposit(&self, tx: TxId, client: ClientId, expected: DepositState) -> (r: Option<
        Amount,
    >)
        ensures
            match r {
                Some(a) => self@.deposit_in(tx, client, expected) == Some(a@),
                None => self@.deposit_in(tx, client, expected) is None,
            },
    {
        match self.txs.get(&tx) {
            Some(TxRecord::Deposit(record)) => {
                if record.client == client && record.state == expected {
                    Some(record.amount)
                } else {
                    None
                }
            },
            _ => None,
        }
    }

    fn deposit(&mut self, client: ClientId, tx: TxId, amount: Amount)
        requires
            old(self).clients_listed(),
            old(self)@.consistent(),
            old(self)@.accounts.contains_key(client),
            !old(self)@.accounts[client].locked,
            old(self)@.fits(Event::Deposit { client, tx, amount }),
        ensures
            final(self).clients_listed(),
            final(self)@ == old(self)@.step_unlocked(Event::Deposit { client, tx, amount }),
    {
        if amount.units <= 0 || self.txs.contains_key(&tx) {
            return;
        }
        let mut account = self.existing_account(client);
        assert(self@.account_consistent(client));
        account.set(account.available().units + amount.units, account.held().units, account.locked());
        self.commit(
            client,
            account,
            tx,
            TxRecord::Deposit(DepositRecord { client, amount, state: DepositState::Settled }),
        );
    }

    fn withdrawal(&mut self, client: ClientId, tx: TxId, amount: Amount)
        requires
            old(self).clients_listed(),
            old(self)@.consistent(),
            old(self)@.accounts.contains_key(client),
            !old(self)@.accounts[client].locked,
        ensures
            final(self).clients_listed(),
            final(self)@ == old(self)@.step_unlocked(Event::Withdrawal { client, tx, amount }),
    {
        if amount.units <= 0 || self.txs.contains_key(&tx) {
            return;
        }
        let mut account = self.existing_account(client);
        assert(self@.account_consistent(client));
        if account.available().units < amount.units {
            self.commit_tx(tx, TxRecord::Consumed);
            return;
        }
        account.set(account.available().units - amount.units, account.held().units, account.locked());
        self.commit(client, account, tx, TxRecord::Consumed);
    }

    fn dispute(&mut self, client: ClientId, tx: TxId)
        requires
            old(self).clients_listed(),
            old(self)@.consistent(),
            old(self)@.accounts.contains_key(client),
            !old(self)@.accounts[client].locked,
        ensures
            final(self).clients_listed(),
            final(self)@ == old(self)@.step_unlocked(Event::Dispute { client, tx }),
    {
        let Some(amount) = self.require_deposit(tx, client, DepositState::Settled) else {
            return;
        };
        let mut account = self.existing_account(client);
        assert(self@.account_consistent(client));
        if account.available().units < amount.units {
            return;
        }
        account.set(
            account.available().units - amount.units,
            account.held().units + amount.units,
            account.locked(),
        );
        self.commit(
            client,
            account,
            tx,
            TxRecord::Deposit(DepositRecord { client, amount, state: DepositState::Disputed }),
        );
    }

    fn resolve(&mut self, client: ClientId, tx: TxId)
        requires
            old(self).clients_listed(),
            old(self)@.consistent(),
            old(self)@.accounts.contains_key(client),
            !old(self)@.accounts[client].locked,
        ensures
            final(self).clients_listed(),
            final(self)@ == old(self)@.step_unlocked(Event::Resolve { client, tx }),
    {
        let Some(amount) = self.require_deposit(tx, client, DepositState::Disputed) else {
            return;
        };
        let mut account = self.existing_account(client);
        proof {
            self@.lemma_disputed_covers(tx, client);
        }
        account.set(
            account.available().units + amount.units,
            account.held().units - amount.units,
            account.locked(),
        );
        self.commit(
            client,
            account,
            tx,
            TxRecord::Deposit(DepositRecord { client, amount, state: DepositState::Settled }),
        );
    }

    fn chargeback(&mut self, client: ClientId, tx: TxId)
        requires
            old(self).clients_listed(),
            old(self)@.consistent(),
            old(self)@.accounts.contains_key(client),
            !old(self)@.accounts[client].locked,
        ensures
            final(self).clients_listed(),
            final(self)@ == old(self)@.step_unlocked(Event::Chargeback { client, tx }),
    {
        let Some(amount) = self.require_deposit(tx, client, DepositState::Disputed) else {
            return;
        };
        let mut account = self.existing_account(client);
        proof {
            self@.lemma_disputed_covers(tx, client);
        }
        account.set(account.available().units, account.held().units - amount.units, true);
        self.commit(
            client,
            account,
            tx,
            TxRecord::Deposit(DepositRecord { client, amount, state: DepositState::ChargedBack }),
        );
    }
}


impl Engine {
    /// Opens an empty account for `client` if it has none.
    fn ensure_account(&mut self, client: ClientId)
        requires
            old(self).clients_listed(),
        ensures
            final(self).clients_listed(),
            final(self)@ == old(self)@.open_account(client),
    {
        if !self.accounts.contains_key(&client) {
            self.accounts.insert(client, Account::new(client));
            self.clients.push(client);
            assert(self@.accounts =~= old(self)@.accounts.insert(client, AccountView::fresh(client)));
            assert(self@.txs =~= old(self)@.txs);
            assert forall|i: int| 0 <= i < self.clients@.len() implies self.accounts@.contains_key(
                #[trigger] self.clients@[i],
            ) by {
                if i < old(self).clients@.len() {
                    assert(self.clients@[i] == old(self).clients@[i]);
                }
            }
            assert forall|c: ClientId| #[trigger] self.accounts@.contains_key(c) implies self.clients@.contains(
                c,
            ) by {
                if c == client {
                    assert(self.clients@[self.clients@.len() - 1] == client);
                } else {
                    let i = choose|i: int|
                        0 <= i < old(self).clients@.len() && old(self).clients@[i] == c;
                    assert(self.clients@[i] == c);
                }
            }
            assert(self.clients@.no_duplicates()) by {
                assert(!old(self).clients@.contains(client));
            }
        }
    }

    /// Whether applying `event` keeps every balance within the range of a
    /// decimal of four places.
    pub fn fits(&self, event: &Event) -> (r: bool)
        requires
            self.wf(),
        ensures
            r == self@.fits(*event),
    {
        match event {
            Event::Deposit { client, tx, amount } => {
                if amount.units <= 0 || self.txs.contains_key(tx) {
                    return true;
                }
                if !self.accounts.contains_key(client) {
                    return amount.units <= MAX_BALANCE;
                }
                let account = self.existing_account(*client);
                proof {
                    self@.lemma_disputed_covers(*tx, *client);
                }
                if account.locked() {
                    return true;
                }
                amount.units <= MAX_BALANCE - account.total().units
            },
            _ => true,
        }
    }

    /// Applies one event: opens the client's account if it is new, ignores the
    /// event if that account is locked, and otherwise carries it out.
    pub fn apply(&mut self, event: Event)
        requires
            old(self).wf(),
            old(self)@.fits(event),
        ensures
            final(self).wf(),
            final(self)@ == old(self)@.step(event),
            final(self)@.consistent(),
    {
        proof {
            old(self)@.lemma_step_consistent(event);
        }
        let client = event.client();
        self.ensure_account(client);
        let account = self.existing_account(client);
        if account.locked() {
            return;
        }
        proof {
            old(self)@.lemma_open_account_consistent(client);
            assert(self@.open_account(client) == self@);
        }
        match event {
            Event::Deposit { client, tx, amount } => self.deposit(client, tx, amount),
            Event::Withdrawal { client, tx, amount } => self.withdrawal(client, tx, amount),
            Event::Dispute { client, tx } => self.dispute(client, tx),
            Event::Resolve { client, tx } => self.resolve(client, tx),
            Event::Chargeback { client, tx } => self.chargeback(client, tx),
        }
    }

    /// A snapshot of every account, each exactly once, in the order in which
    /// clients first appeared.
    pub fn accounts(&self) -> (r: Vec<Account>)
        requires
            self.wf(),
        ensures
            r@.len() == self@.accounts.len(),
            forall|i: int| 0 <= i < r@.len() ==> self@.accounts.contains_key((#[trigger] r@[i])@.client)
                && self@.accounts[r@[i]@.client] == r@[i]@,
            forall|i: int, j: int| 0 <= i < j < r@.len() ==> (#[trigger] r@[i])@.client != (#[trigger] r@[j])@.client,
            forall|c: ClientId| #[trigger] self@.accounts.contains_key(c) ==> exists|i: int|
                0 <= i < r@.len() && (#[trigger] r@[i])@.client == c,
    {
        let mut r: Vec<Account> = Vec::new();
        let n = self.clients.len();
        for k in 0..n
            invariant
                n == self.clients@.len(),
                self.wf(),
                r@.len() == k,
                forall|i: int| 0 <= i < k ==> (#[trigger] r@[i])@.client == self.clients@[i]
                    && self@.accounts[self.clients@[i]] == r@[i]@,
        {
            let c = self.clients[k];
            assert(self.accounts@.contains_key(self.clients@[k as int]));
            assert(self@.accounts.contains_key(c));
            assert(self@.account_consistent(c));
            r.push(self.existing_account(c));
        }
        proof {
            assert forall|i: int, j: int| 0 <= i < j < r@.len() implies (#[trigger] r@[i])@.client
                != (#[trigger] r@[j])@.client by {
                assert(self.clients@[i] != self.clients@[j]);
            }
            assert forall|c: ClientId| #[trigger] self@.accounts.contains_key(c) implies exists|i: int|
                0 <= i < r@.len() && (#[trigger] r@[i])@.client == c by {
                assert(self.clients@.contains(c));
                let i = choose|i: int| 0 <= i < self.clients@.len() && self.clients@[i] == c;
                assert(r@[i]@.client == c);
            }
            self.lemma_clients_count();
        }
        r
    }

    proof fn lemma_clients_count(&self)
        requires
            self.clients_listed(),
        ensures
            self.clients@.len() == self@.accounts.len(),
    {
        assert(self.clients@.to_set() =~= self@.accounts.dom());
        self.clients@.unique_seq_to_set();
    }
}

impl Default for Engine {
    fn default() -> (r: Engine)
        ensures
            r.wf(),
            r@ == Ledger::empty(),
    {
        Engine::new()
    }
}


impl Engine {
    /// The account of `client`, if the client has appeared.
    pub fn account(&self, client: ClientId) -> (r: Option<Account>)
        ensures
            match r {
                Some(a) => self@.accounts.contains_key(client) && a@ == self@.accounts[client],
                None => !self@.accounts.contains_key(client),
            },
    {
        match self.accounts.get(&client) {
            Some(a) => Some(*a),
            None => None,
        }
    }

    /// The record kept under `tx`, if the id has been used.
    pub fn tx_record(&self, tx: TxId) -> (r: Option<TxRecord>)
        ensures
            match r {
                Some(rec) => self@.txs.contains_key(tx) && rec@ == self@.txs[tx],
                None => !self@.txs.contains_key(tx),
            },
    {
        match self.txs.get(&tx) {
            Some(rec) => Some(*rec),
            None => None,
        }
    }
}

} // verus!
