//! Laws of the ledger: how events relate to one another and what no event
//! can change.
use vstd::prelude::*;

use crate::ledger::{DepositState, Ledger, TxView};
use crate::amount::Amount;
use crate::types::{AccountView, ClientId, Event, TxId};

verus! {

/// Law: once an account is locked, every event that names its client leaves
/// the whole ledger unchanged.
pub proof fn lemma_locked_account_frozen(l: Ledger, e: Event)
    requires
        l.accounts.contains_key(e.client_id()),
        l.accounts[e.client_id()].locked,
    ensures
        l.step(e) == l,
{
}

/// Law: an event touches no account but that of the client it names, and the
/// only account it can add is that one.
pub proof fn lemma_other_accounts_untouched(l: Ledger, e: Event, c: ClientId)
    requires
        c != e.client_id(),
    ensures
        l.step(e).accounts.contains_key(c) == l.accounts.contains_key(c),
        l.accounts.contains_key(c) ==> l.step(e).accounts[c] == l.accounts[c],
        l.step(e).accounts.contains_key(e.client_id()),
{
}

/// Law: a lock is permanent: a locked account stays locked whatever event comes.
pub proof fn lemma_lock_is_sticky(l: Ledger, e: Event, c: ClientId)
    requires
        l.accounts.contains_key(c),
        l.accounts[c].locked,
    ensures
        l.step(e).accounts.contains_key(c),
        l.step(e).accounts[c].locked,
{
    if c != e.client_id() {
        lemma_other_accounts_untouched(l, e, c);
    }
}

/// Law: a resolve undoes the dispute just before it: when a dispute takes
/// effect, resolving the same transaction for the same client gives back the
/// ledger as it was before the dispute.
pub proof fn lemma_resolve_undoes_dispute(l: Ledger, client: ClientId, tx: TxId)
    requires
        l.accounts.contains_key(client),
        l.step(Event::Dispute { client, tx }) != l,
    ensures
        l.step(Event::Dispute { client, tx }).step(Event::Resolve { client, tx }) == l,
{
    let d = l.step(Event::Dispute { client, tx });
    let r = d.step(Event::Resolve { client, tx });
    let x = l.deposit_in(tx, client, DepositState::Settled)->Some_0;
    assert(d.deposit_in(tx, client, DepositState::Disputed) == Some(x));
    assert(r.accounts =~= l.accounts);
    assert(r.txs =~= l.txs);
}

/// Law: disputes and resolves move funds between available and held; they
/// never change any account's total.
pub proof fn lemma_dispute_and_resolve_keep_totals(l: Ledger, e: Event, c: ClientId)
    requires
        e is Dispute || e is Resolve,
        l.accounts.contains_key(c),
    ensures
        l.step(e).accounts[c].total() == l.accounts[c].total(),
{
}

/// Law: a chargeback leaves available funds as they are, takes the disputed
/// amount out of held funds (and so out of the total), and locks the account.
pub proof fn lemma_chargeback_effect(l: Ledger, client: ClientId, tx: TxId)
    requires
        l.accounts.contains_key(client),
        !l.accounts[client].locked,
        l.deposit_in(tx, client, DepositState::Disputed) is Some,
    ensures
        ({
            let x = l.deposit_in(tx, client, DepositState::Disputed)->Some_0;
            let before = l.accounts[client];
            let after = l.step(Event::Chargeback { client, tx }).accounts[client];
            &&& after.available == before.available
            &&& after.held == before.held - x
            &&& after.total() == before.total() - x
            &&& after.locked
        }),
{
}

/// Law: a charged-back deposit is final: no event changes its record.
pub proof fn lemma_charged_back_is_final(l: Ledger, e: Event, t: TxId)
    requires
        l.txs.contains_key(t),
        l.txs[t] matches TxView::Deposit { state: DepositState::ChargedBack, .. },
    ensures
        l.step(e).txs.contains_key(t),
        l.step(e).txs[t] == l.txs[t],
{
}

/// Law: transaction ids are used once: a deposit or withdrawal whose id is
/// already on record only opens the client's account, and no event forgets an
/// id or changes whose deposit it is and how much it was.
pub proof fn lemma_tx_ids_used_once(l: Ledger, e: Event, t: TxId)
    requires
        l.txs.contains_key(t),
    ensures
        l.step(e).txs.contains_key(t),
        l.txs[t] matches TxView::Deposit { client, amount, .. } ==> l.step(e).txs[t] matches TxView::Deposit { client: c2, amount: a2, .. } && c2 == client && a2 == amount,
        (l.txs[t] is Consumed) ==> l.step(e).txs[t] is Consumed,
        (e matches Event::Deposit { tx, .. } && tx == t) ==> l.step(e) == l.open_account(e.client_id()),
        (e matches Event::Withdrawal { tx, .. } && tx == t) ==> l.step(e) == l.open_account(e.client_id()),
{
}

/// Law: a withdrawal that takes effect or fails for want of funds still uses
/// up its id, which then never stands for a disputable deposit.
pub proof fn lemma_withdrawal_consumes_id(l: Ledger, client: ClientId, tx: TxId, amount: crate::amount::Amount)
    requires
        !l.txs.contains_key(tx),
        amount@ > 0,
        !l.open_account(client).accounts[client].locked,
    ensures
        l.step(Event::Withdrawal { client, tx, amount }).txs.contains_key(tx),
        l.step(Event::Withdrawal { client, tx, amount }).txs[tx] is Consumed,
{
}

/// Law: a deposit of a positive amount under an id not on record, to a client
/// whose account is new or unlocked, credits exactly that amount to the funds
/// available (held funds and the lock as they were; a new account starts
/// empty) and records a settled deposit of that amount for the client.
pub proof fn lemma_deposit_credits(l: Ledger, client: ClientId, tx: TxId, amount: Amount)
    requires
        amount@ > 0,
        !l.txs.contains_key(tx),
        l.accounts.contains_key(client) ==> !l.accounts[client].locked,
    ensures
        ({
            let after = l.step(Event::Deposit { client, tx, amount });
            let (available, held) = if l.accounts.contains_key(client) {
                (l.accounts[client].available, l.accounts[client].held)
            } else {
                (0, 0)
            };
            &&& after.accounts.contains_key(client)
            &&& after.accounts[client] == AccountView {
                client: if l.accounts.contains_key(client) {
                    l.accounts[client].client
                } else {
                    client
                },
                available: available + amount@,
                held,
                locked: false,
            }
            &&& after.txs == l.txs.insert(
                tx,
                TxView::Deposit { client, amount: amount@, state: DepositState::Settled },
            )
        }),
{
}

/// Law: a deposit changes nothing but the opening of the client's account
/// exactly when its amount is not positive, its id is already on record, or
/// the account is locked.
pub proof fn lemma_deposit_ignored_only_when(l: Ledger, client: ClientId, tx: TxId, amount: Amount)
    ensures
        (l.step(Event::Deposit { client, tx, amount }) == l.open_account(client)) <==> (amount@ <= 0
            || l.txs.contains_key(tx) || (l.accounts.contains_key(client)
            && l.accounts[client].locked)),
{
    if !(amount@ <= 0 || l.txs.contains_key(tx) || (l.accounts.contains_key(client)
        && l.accounts[client].locked)) {
        let after = l.step(Event::Deposit { client, tx, amount });
        assert(after.txs.contains_key(tx));
        assert(!l.open_account(client).txs.contains_key(tx));
    }
}

/// Law: a withdrawal of a positive amount under an id not on record, from an
/// unlocked account whose available funds cover it, takes exactly that amount
/// from the funds available, leaves held funds and the lock alone, and uses
/// up the id.
pub proof fn lemma_withdrawal_debits(l: Ledger, client: ClientId, tx: TxId, amount: Amount)
    requires
        l.accounts.contains_key(client),
        !l.accounts[client].locked,
        !l.txs.contains_key(tx),
        0 < amount@ <= l.accounts[client].available,
    ensures
        ({
            let before = l.accounts[client];
            let after = l.step(Event::Withdrawal { client, tx, amount });
            &&& after.accounts == l.accounts.insert(
                client,
                AccountView { available: before.available - amount@, ..before },
            )
            &&& after.txs == l.txs.insert(tx, TxView::Consumed)
        }),
{
}

/// Law: a withdrawal of a positive amount under an id not on record that the
/// available funds do not cover changes no account (opening the client's if
/// new) and still uses up the id.
pub proof fn lemma_withdrawal_refused_when_short(
    l: Ledger,
    client: ClientId,
    tx: TxId,
    amount: Amount,
)
    requires
        !l.txs.contains_key(tx),
        amount@ > 0,
        l.accounts.contains_key(client) ==> !l.accounts[client].locked,
        amount@ > (if l.accounts.contains_key(client) {
            l.accounts[client].available
        } else {
            0
        }),
    ensures
        l.step(Event::Withdrawal { client, tx, amount }).accounts == l.open_account(client).accounts,
        l.step(Event::Withdrawal { client, tx, amount }).txs == l.txs.insert(tx, TxView::Consumed),
{
}

/// Law: disputing a settled deposit of the client, when the account is
/// unlocked and its available funds cover the deposit, moves exactly the
/// deposit's amount from available to held funds and marks the deposit
/// disputed; nothing else changes.
pub proof fn lemma_dispute_holds(l: Ledger, client: ClientId, tx: TxId, x: int)
    requires
        l.accounts.contains_key(client),
        !l.accounts[client].locked,
        l.txs.contains_key(tx),
        l.txs[tx] == (TxView::Deposit { client, amount: x, state: DepositState::Settled }),
        x <= l.accounts[client].available,
    ensures
        ({
            let before = l.accounts[client];
            let after = l.step(Event::Dispute { client, tx });
            &&& after.accounts == l.accounts.insert(
                client,
                AccountView { available: before.available - x, held: before.held + x, ..before },
            )
            &&& after.txs == l.txs.insert(
                tx,
                TxView::Deposit { client, amount: x, state: DepositState::Disputed },
            )
        }),
{
    assert(l.txs.get(tx) == Some(l.txs[tx]));
}

/// Law: a dispute changes nothing (beyond opening the client's account) when
/// the id is not a settled deposit of that client, or the available funds do
/// not cover the deposit.
pub proof fn lemma_dispute_refused(l: Ledger, client: ClientId, tx: TxId)
    requires
        !(l.txs.contains_key(tx) && (l.txs[tx] matches TxView::Deposit {
            client: owner,
            amount,
            state,
        } && owner == client && state == DepositState::Settled && amount <= l.open_account(
            client,
        ).accounts[client].available)),
    ensures
        l.step(Event::Dispute { client, tx }) == l.open_account(client),
{
    if l.txs.contains_key(tx) {
        assert(l.txs.get(tx) == Some(l.txs[tx]));
    }
}

/// Law: resolving a disputed deposit of the client, when the account is
/// unlocked, moves exactly the deposit's amount from held back to available
/// funds and marks the deposit settled; nothing else changes.
pub proof fn lemma_resolve_releases(l: Ledger, client: ClientId, tx: TxId, x: int)
    requires
        l.accounts.contains_key(client),
        !l.accounts[client].locked,
        l.txs.contains_key(tx),
        l.txs[tx] == (TxView::Deposit { client, amount: x, state: DepositState::Disputed }),
    ensures
        ({
            let before = l.accounts[client];
            let after = l.step(Event::Resolve { client, tx });
            &&& after.accounts == l.accounts.insert(
                client,
                AccountView { available: before.available + x, held: before.held - x, ..before },
            )
            &&& after.txs == l.txs.insert(
                tx,
                TxView::Deposit { client, amount: x, state: DepositState::Settled },
            )
        }),
{
    assert(l.txs.get(tx) == Some(l.txs[tx]));
}

/// Law: charging back a disputed deposit of the client, when the account is
/// unlocked, removes exactly the deposit's amount from held funds, locks the
/// account, and marks the deposit charged back; nothing else changes.
pub proof fn lemma_chargeback_reverses(l: Ledger, client: ClientId, tx: TxId, x: int)
    requires
        l.accounts.contains_key(client),
        !l.accounts[client].locked,
        l.txs.contains_key(tx),
        l.txs[tx] == (TxView::Deposit { client, amount: x, state: DepositState::Disputed }),
    ensures
        ({
            let before = l.accounts[client];
            let after = l.step(Event::Chargeback { client, tx });
            &&& after.accounts == l.accounts.insert(
                client,
                AccountView { held: before.held - x, locked: true, ..before },
            )
            &&& after.txs == l.txs.insert(
                tx,
                TxView::Deposit { client, amount: x, state: DepositState::ChargedBack },
            )
        }),
{
    assert(l.txs.get(tx) == Some(l.txs[tx]));
}

/// Law: resolves and chargebacks change nothing (beyond opening the client's
/// account) unless the id is a disputed deposit of that client.
pub proof fn lemma_resolve_and_chargeback_need_open_dispute(l: Ledger, e: Event)
    requires
        e matches Event::Resolve { client, tx } || e matches Event::Chargeback { client, tx },
        ({
            let tx = match e {
                Event::Resolve { tx, .. } => tx,
                Event::Chargeback { tx, .. } => tx,
                _ => 0,
            };
            !(l.txs.contains_key(tx) && (l.txs[tx] matches TxView::Deposit {
                client: owner,
                state,
                ..
            } && owner == e.client_id() && state == DepositState::Disputed))
        }),
    ensures
        l.step(e) == l.open_account(e.client_id()),
{
    match e {
        Event::Resolve { tx, .. } => {
            if l.txs.contains_key(tx) {
                assert(l.txs.get(tx) == Some(l.txs[tx]));
            }
        },
        Event::Chargeback { tx, .. } => {
            if l.txs.contains_key(tx) {
                assert(l.txs.get(tx) == Some(l.txs[tx]));
            }
        },
        _ => {},
    }
}

} // verus!
