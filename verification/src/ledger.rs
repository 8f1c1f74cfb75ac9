//! The mathematical model of the ledger: its state, the effect of one event,
//! the invariants every reachable state keeps, and the laws that relate events.
use vstd::prelude::*;

use crate::amount::MAX_BALANCE;
use crate::types::{AccountView, ClientId, Event, TxId};

verus! {

/// Where a recorded deposit stands in the dispute lifecycle.
#[derive(Clone, Copy, Debug, PartialEq, Eq, Structural)]
pub enum DepositState {
    Settled,
    Disputed,
    ChargedBack,
}

/// What the ledger remembers of a transaction id: a deposit that may be
/// disputed, or an id that a withdrawal has used up.
pub enum TxView {
    Deposit { client: ClientId, amount: int, state: DepositState },
    Consumed,
}

/// The number of distinct transaction ids.
pub open spec fn tx_id_count() -> nat {
    0x1_0000_0000
}

/// The state of the whole ledger.
pub struct Ledger {
    pub accounts: Map<ClientId, AccountView>,
    pub txs: Map<TxId, TxView>,
}

/// The amount that the record `r` holds for client `c`: its amount if it is a
/// disputed deposit of `c`, else zero.
pub open spec fn disputed_amount(r: TxView, c: ClientId) -> int {
    match r {
        TxView::Deposit { client, amount, state } => if client == c && state
            == DepositState::Disputed {
            amount
        } else {
            0
        },
        TxView::Consumed => 0,
    }
}

/// The amount held for `c` by the record of id `t`, if there is one.
pub open spec fn held_at(txs: Map<TxId, TxView>, c: ClientId, t: int) -> int {
    if txs.contains_key(t as TxId) {
        disputed_amount(txs[t as TxId], c)
    } else {
        0
    }
}

/// The sum of the disputed deposits of `c` among the ids below `n`.
pub open spec fn held_below(txs: Map<TxId, TxView>, c: ClientId, n: nat) -> int
    decreases n,
{
    if n == 0 {
        0
    } else {
        held_below(txs, c, (n - 1) as nat) + held_at(txs, c, n - 1)
    }
}

/// The sum of the amounts of all deposits of `c` under dispute.
pub open spec fn disputed_total(txs: Map<TxId, TxView>, c: ClientId) -> int {
    held_below(txs, c, tx_id_count())
}

/// The record `r` is a deposit of `c` that was charged back.
pub open spec fn charged_back_of(r: TxView, c: ClientId) -> bool {
    r matches TxView::Deposit { client, state, .. } && client == c && state
        == DepositState::ChargedBack
}

/// Some deposit of `c` was charged back.
pub open spec fn has_charged_back(txs: Map<TxId, TxView>, c: ClientId) -> bool {
    exists|t: TxId| #[trigger] txs.contains_key(t) && charged_back_of(txs[t], c)
}

impl Ledger {
    /// The ledger before any event.
    pub open spec fn empty() -> Ledger {
        Ledger { accounts: Map::empty(), txs: Map::empty() }
    }

    /// The ledger with an account for `c`, opened empty if it had none.
    pub open spec fn open_account(self, c: ClientId) -> Ledger {
        if self.accounts.contains_key(c) {
            self
        } else {
            Ledger { accounts: self.accounts.insert(c, AccountView::fresh(c)), txs: self.txs }
        }
    }

    /// The amount of the deposit recorded under `tx`, when it belongs to
    /// `client` and stands in state `state`.
    pub open spec fn deposit_in(self, tx: TxId, client: ClientId, state: DepositState) -> Option<
        int,
    > {
        match self.txs.get(tx) {
            Some(TxView::Deposit { client: owner, amount, state: s }) => if owner == client && s
                == state {
                Some(amount)
            } else {
                None
            },
            _ => None,
        }
    }

    /// The ledger with the account of `c` replaced by `a`.
    pub open spec fn set_account(self, c: ClientId, a: AccountView) -> Ledger {
        Ledger { accounts: self.accounts.insert(c, a), txs: self.txs }
    }

    /// The ledger with the record of `t` replaced by `r`.
    pub open spec fn set_tx(self, t: TxId, r: TxView) -> Ledger {
        Ledger { accounts: self.accounts, txs: self.txs.insert(t, r) }
    }

    /// The effect of `e` on a ledger in which the account of its client
    /// exists and is not locked.
    pub open spec fn step_unlocked(self, e: Event) -> Ledger {
        let a = self.accounts[e.client_id()];
        match e {
            Event::Deposit { client, tx, amount } => if amount@ <= 0 || self.txs.contains_key(tx) {
                self
            } else {
                self.set_account(client, AccountView { available: a.available + amount@, ..a }).set_tx(
                    tx,
                    TxView::Deposit { client, amount: amount@, state: DepositState::Settled },
                )
            },
            Event::Withdrawal { client, tx, amount } => if amount@ <= 0 || self.txs.contains_key(
                tx,
            ) {
                self
            } else if a.available < amount@ {
                self.set_tx(tx, TxView::Consumed)
            } else {
                self.set_account(client, AccountView { available: a.available - amount@, ..a }).set_tx(
                    tx,
                    TxView::Consumed,
                )
            },
            Event::Dispute { client, tx } => match self.deposit_in(tx, client, DepositState::Settled) {
                Some(x) => if a.available < x {
                    self
                } else {
                    self.set_account(
                        client,
                        AccountView { available: a.available - x, held: a.held + x, ..a },
                    ).set_tx(tx, TxView::Deposit { client, amount: x, state: DepositState::Disputed })
                },
                None => self,
            },
            Event::Resolve { client, tx } => match self.deposit_in(tx, client, DepositState::Disputed) {
                Some(x) => self.set_account(
                    client,
                    AccountView { available: a.available + x, held: a.held - x, ..a },
                ).set_tx(tx, TxView::Deposit { client, amount: x, state: DepositState::Settled }),
                None => self,
            },
            Event::Chargeback { client, tx } => match self.deposit_in(
                tx,
                client,
                DepositState::Disputed,
            ) {
                Some(x) => self.set_account(
                    client,
                    AccountView { held: a.held - x, locked: true, ..a },
                ).set_tx(tx, TxView::Deposit { client, amount: x, state: DepositState::ChargedBack }),
                None => self,
            },
        }
    }

    /// The effect of applying `e`: the account of its client is opened if it
    /// is new; a locked account ignores the event; otherwise the event acts.
    pub open spec fn step(self, e: Event) -> Ledger {
        let opened = self.open_account(e.client_id());
        if opened.accounts[e.client_id()].locked {
            opened
        } else {
            opened.step_unlocked(e)
        }
    }

    /// Applying `e` keeps every balance within the range that a decimal of four
    /// places represents exactly: only a deposit that takes effect raises a total.
    pub open spec fn fits(self, e: Event) -> bool {
        match e {
            Event::Deposit { client, tx, amount } => {
                let a = self.open_account(client).accounts[client];
                (!a.locked && amount@ > 0 && !self.txs.contains_key(tx)) ==> a.total() + amount@
                    <= MAX_BALANCE
            },
            _ => true,
        }
    }

    /// The account of `c` is consistent with the transaction records.
    pub open spec fn account_consistent(self, c: ClientId) -> bool {
        let a = self.accounts[c];
        &&& a.client == c
        &&& a.balanced()
        &&& a.held == disputed_total(self.txs, c)
        &&& a.locked == has_charged_back(self.txs, c)
    }

    /// The record of `t` is consistent with the accounts.
    pub open spec fn tx_consistent(self, t: TxId) -> bool {
        match self.txs[t] {
            TxView::Deposit { client, amount, .. } => amount > 0 && self.accounts.contains_key(
                client,
            ),
            TxView::Consumed => true,
        }
    }

    /// The ledger invariants: balances are non-negative and in range, the held
    /// funds of each account are exactly its disputed deposits, an account is
    /// locked exactly when one of its deposits was charged back, and every
    /// recorded deposit is positive and belongs to a known account.
    pub open spec fn consistent(self) -> bool {
        &&& forall|c: ClientId| #[trigger] self.accounts.contains_key(c) ==> self.account_consistent(c)
        &&& forall|t: TxId| #[trigger] self.txs.contains_key(t) ==> self.tx_consistent(t)
    }
}


/// Replacing the record of `k` changes each client's disputed sum below `n`
/// by the difference between the new and the old record's held amounts.
proof fn lemma_held_below_insert(txs: Map<TxId, TxView>, k: TxId, r: TxView, c: ClientId, n: nat)
    requires
        n <= tx_id_count(),
    ensures
        held_below(txs.insert(k, r), c, n) == held_below(txs, c, n) + (if (k as int) < n {
            disputed_amount(r, c) - held_at(txs, c, k as int)
        } else {
            0
        }),
    decreases n,
{
    if n > 0 {
        lemma_held_below_insert(txs, k, r, c, (n - 1) as nat);
        let t = (n - 1) as int;
        if t == k as int {
            assert((t as TxId) == k);
        } else {
            assert((t as TxId) != k);
        }
    }
}

/// Replacing the record of `k` changes the disputed total of `c` by the
/// difference between the new and the old held amounts.
proof fn lemma_disputed_total_insert(txs: Map<TxId, TxView>, k: TxId, r: TxView, c: ClientId)
    ensures
        disputed_total(txs.insert(k, r), c) == disputed_total(txs, c) + disputed_amount(r, c)
            - held_at(txs, c, k as int),
{
    lemma_held_below_insert(txs, k, r, c, tx_id_count());
}

/// With no negative deposit on record, disputed sums are non-negative.
proof fn lemma_held_below_nonneg(txs: Map<TxId, TxView>, c: ClientId, n: nat)
    requires
        forall|t: TxId| #[trigger] txs.contains_key(t) ==> disputed_amount(txs[t], c) >= 0,
    ensures
        held_below(txs, c, n) >= 0,
    decreases n,
{
    if n > 0 {
        lemma_held_below_nonneg(txs, c, (n - 1) as nat);
        let t = (n - 1) as TxId;
        if txs.contains_key(t) {
            assert(disputed_amount(txs[t], c) >= 0);
        }
    }
}

/// With no deposit of `c` on record, nothing is held for `c`.
proof fn lemma_held_below_none(txs: Map<TxId, TxView>, c: ClientId, n: nat)
    requires
        forall|t: TxId| #[trigger] txs.contains_key(t) ==> disputed_amount(txs[t], c) == 0,
    ensures
        held_below(txs, c, n) == 0,
    decreases n,
{
    if n > 0 {
        lemma_held_below_none(txs, c, (n - 1) as nat);
        let t = (n - 1) as TxId;
        if txs.contains_key(t) {
            assert(disputed_amount(txs[t], c) == 0);
        }
    }
}

/// Replacing a record that is not a charged-back deposit of `c` leaves `c`
/// with a charged-back deposit exactly when it had one or the new record is one.
proof fn lemma_has_charged_back_insert(txs: Map<TxId, TxView>, k: TxId, r: TxView, c: ClientId)
    requires
        !(txs.contains_key(k) && charged_back_of(txs[k], c)),
    ensures
        has_charged_back(txs.insert(k, r), c) == (has_charged_back(txs, c) || charged_back_of(
            r,
            c,
        )),
{
    let new_txs = txs.insert(k, r);
    if has_charged_back(txs, c) {
        let t = choose|t: TxId| #[trigger] txs.contains_key(t) && charged_back_of(txs[t], c);
        assert(t != k);
        assert(new_txs.contains_key(t) && charged_back_of(new_txs[t], c));
    }
    if charged_back_of(r, c) {
        assert(new_txs.contains_key(k) && charged_back_of(new_txs[k], c));
    }
    if has_charged_back(new_txs, c) {
        let t = choose|t: TxId| #[trigger] new_txs.contains_key(t) && charged_back_of(new_txs[t], c);
        if t != k {
            assert(txs.contains_key(t) && charged_back_of(txs[t], c));
        }
    }
}

impl Ledger {
    /// Opening an account keeps the ledger consistent.
    pub proof fn lemma_open_account_consistent(self, c: ClientId)
        requires
            self.consistent(),
        ensures
            self.open_account(c).consistent(),
            self.open_account(c).txs == self.txs,
            self.open_account(c).accounts.contains_key(c),
    {
        if !self.accounts.contains_key(c) {
            let l = self.open_account(c);
            assert forall|t: TxId| #[trigger] self.txs.contains_key(t) implies disputed_amount(
                self.txs[t],
                c,
            ) == 0 && !charged_back_of(self.txs[t], c) by {
                assert(self.tx_consistent(t));
            }
            lemma_held_below_none(self.txs, c, tx_id_count());
            assert forall|c2: ClientId| #[trigger] l.accounts.contains_key(c2) implies l.account_consistent(
                c2,
            ) by {
                if c2 != c {
                    assert(self.account_consistent(c2));
                }
            }
            assert forall|t: TxId| #[trigger] l.txs.contains_key(t) implies l.tx_consistent(t) by {
                assert(self.tx_consistent(t));
            }
        }
    }
}


/// The record `r` may stand in a ledger whose accounts are `accounts`.
spec fn record_fits(r: TxView, accounts: Map<ClientId, AccountView>) -> bool {
    match r {
        TxView::Deposit { client, amount, .. } => amount > 0 && accounts.contains_key(client),
        TxView::Consumed => true,
    }
}

impl Ledger {
    /// Replacing the account of `c` and the record of `k` together keeps the
    /// ledger consistent when the new account matches the new record.
    proof fn lemma_update_consistent(self, c: ClientId, a: AccountView, k: TxId, r: TxView)
        requires
            self.consistent(),
            self.accounts.contains_key(c),
            a.client == c,
            a.balanced(),
            a.held == self.accounts[c].held + disputed_amount(r, c) - held_at(self.txs, c, k as int),
            a.locked == (self.accounts[c].locked || charged_back_of(r, c)),
            forall|c2: ClientId|
                c2 != c ==> disputed_amount(r, c2) == #[trigger] held_at(self.txs, c2, k as int),
            forall|c2: ClientId| c2 != c ==> !#[trigger] charged_back_of(r, c2),
            !(self.txs.contains_key(k) && self.txs[k] matches TxView::Deposit {
                state: DepositState::ChargedBack,
                ..
            }),
            record_fits(r, self.accounts),
        ensures
            self.set_account(c, a).set_tx(k, r).consistent(),
    {
        let l = self.set_account(c, a).set_tx(k, r);
        assert forall|c2: ClientId| #[trigger] l.accounts.contains_key(c2) implies l.account_consistent(
            c2,
        ) by {
            assert(self.account_consistent(c2));
            lemma_disputed_total_insert(self.txs, k, r, c2);
            if c2 != c {
                assert(!charged_back_of(r, c2));
            }
            lemma_has_charged_back_insert(self.txs, k, r, c2);
        }
        assert forall|t: TxId| #[trigger] l.txs.contains_key(t) implies l.tx_consistent(t) by {
            if t != k {
                assert(self.tx_consistent(t));
            }
        }
    }
}


impl Ledger {
    /// An event on an open, unlocked account keeps the ledger consistent.
    proof fn lemma_step_unlocked_consistent(self, e: Event)
        requires
            self.consistent(),
            self.accounts.contains_key(e.client_id()),
            !self.accounts[e.client_id()].locked,
            self.fits(e),
        ensures
            self.step_unlocked(e).consistent(),
    {
        let c = e.client_id();
        let a = self.accounts[c];
        assert(self.account_consistent(c));
        match e {
            Event::Deposit { client, tx, amount } => {
                if !(amount@ <= 0 || self.txs.contains_key(tx)) {
                    self.lemma_update_consistent(
                        c,
                        AccountView { available: a.available + amount@, ..a },
                        tx,
                        TxView::Deposit { client, amount: amount@, state: DepositState::Settled },
                    );
                }
            },
            Event::Withdrawal { client, tx, amount } => {
                if !(amount@ <= 0 || self.txs.contains_key(tx)) {
                    if a.available < amount@ {
                        self.lemma_update_consistent(c, a, tx, TxView::Consumed);
                        assert(self.set_account(c, a).accounts =~= self.accounts);
                    } else {
                        self.lemma_update_consistent(
                            c,
                            AccountView { available: a.available - amount@, ..a },
                            tx,
                            TxView::Consumed,
                        );
                    }
                }
            },
            Event::Dispute { client, tx } => {
                if let Some(x) = self.deposit_in(tx, client, DepositState::Settled) {
                    assert(self.tx_consistent(tx));
                    if a.available >= x {
                        self.lemma_update_consistent(
                            c,
                            AccountView { available: a.available - x, held: a.held + x, ..a },
                            tx,
                            TxView::Deposit { client, amount: x, state: DepositState::Disputed },
                        );
                    }
                }
            },
            Event::Resolve { client, tx } => {
                if let Some(x) = self.deposit_in(tx, client, DepositState::Disputed) {
                    assert(self.tx_consistent(tx));
                    let r = TxView::Deposit { client, amount: x, state: DepositState::Settled };
                    self.lemma_disputed_covers(tx, client);
                    self.lemma_update_consistent(
                        c,
                        AccountView { available: a.available + x, held: a.held - x, ..a },
                        tx,
                        r,
                    );
                }
            },
            Event::Chargeback { client, tx } => {
                if let Some(x) = self.deposit_in(tx, client, DepositState::Disputed) {
                    assert(self.tx_consistent(tx));
                    let r = TxView::Deposit { client, amount: x, state: DepositState::ChargedBack };
                    self.lemma_disputed_covers(tx, client);
                    self.lemma_update_consistent(
                        c,
                        AccountView { held: a.held - x, locked: true, ..a },
                        tx,
                        r,
                    );
                }
            },
        }
    }

    /// Law: every event keeps the ledger invariants. Balances stay non-negative
    /// and in range, each account holds exactly its disputed deposits, an account
    /// is locked exactly when one of its deposits was charged back, and every
    /// recorded deposit is positive and belongs to a known account.
    pub proof fn lemma_step_consistent(self, e: Event)
        requires
            self.consistent(),
            self.fits(e),
        ensures
            self.step(e).consistent(),
    {
        let c = e.client_id();
        self.lemma_open_account_consistent(c);
        let opened = self.open_account(c);
        if !opened.accounts[c].locked {
            assert(opened.open_account(c) == opened);
            opened.lemma_step_unlocked_consistent(e);
        }
    }

    /// The empty ledger is consistent.
    pub proof fn lemma_empty_consistent()
        ensures
            Ledger::empty().consistent(),
    {
    }
}


impl Ledger {
    /// In a consistent ledger, the held funds of an account cover each of its
    /// disputed deposits, and the account's balances are in range.
    pub proof fn lemma_disputed_covers(self, tx: TxId, client: ClientId)
        requires
            self.consistent(),
            self.accounts.contains_key(client),
        ensures
            self.accounts[client].balanced(),
            self.deposit_in(tx, client, DepositState::Disputed) matches Some(x) ==> 0 < x
                <= self.accounts[client].held,
    {
        assert(self.account_consistent(client));
        if let Some(x) = self.deposit_in(tx, client, DepositState::Disputed) {
            assert(self.tx_consistent(tx));
            let r = TxView::Deposit { client, amount: x, state: DepositState::Settled };
            lemma_disputed_total_insert(self.txs, tx, r, client);
            assert forall|t: TxId| #[trigger] self.txs.insert(tx, r).contains_key(t) implies disputed_amount(
                self.txs.insert(tx, r)[t],
                client,
            ) >= 0 by {
                if t != tx {
                    assert(self.tx_consistent(t));
                }
            }
            lemma_held_below_nonneg(self.txs.insert(tx, r), client, tx_id_count());
        }
    }
}

} // verus!
