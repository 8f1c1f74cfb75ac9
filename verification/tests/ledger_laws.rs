use rust_challenge::{Account, Amount, Engine, Event, TxRecord, MAX_BALANCE};

fn dec(s: &str) -> Amount {
    Amount::parse(s).expect("valid test amount")
}

fn run(events: &[Event]) -> Engine {
    let mut engine = Engine::new();
    for event in events {
        assert!(engine.fits(event));
        engine.apply(*event);
    }
    engine
}

fn snapshot(engine: &Engine, txs: &[u32]) -> (Vec<Account>, Vec<Option<TxRecord>>) {
    (
        engine.accounts(),
        txs.iter().map(|tx| engine.tx_record(*tx)).collect(),
    )
}

#[test]
fn resolve_gives_back_the_ledger_before_the_dispute() {
    let before = [
        Event::Deposit { client: 1, tx: 1, amount: dec("10") },
        Event::Deposit { client: 1, tx: 2, amount: dec("2.5") },
        Event::Deposit { client: 2, tx: 3, amount: dec("1") },
        Event::Dispute { client: 1, tx: 2 },
    ];
    let engine = run(&before);
    let mut after = before.to_vec();
    after.push(Event::Dispute { client: 1, tx: 1 });
    after.push(Event::Resolve { client: 1, tx: 1 });
    let again = run(&after);
    assert_eq!(snapshot(&engine, &[1, 2, 3]), snapshot(&again, &[1, 2, 3]));
}

#[test]
fn dispute_and_resolve_keep_the_total() {
    let mut engine = run(&[Event::Deposit { client: 1, tx: 1, amount: dec("4.2") }]);
    let total = engine.account(1).unwrap().total();
    engine.apply(Event::Dispute { client: 1, tx: 1 });
    assert_eq!(engine.account(1).unwrap().total(), total);
    engine.apply(Event::Resolve { client: 1, tx: 1 });
    assert_eq!(engine.account(1).unwrap().total(), total);
}

#[test]
fn locked_account_leaves_every_event_without_effect() {
    let mut engine = run(&[
        Event::Deposit { client: 1, tx: 1, amount: dec("3") },
        Event::Deposit { client: 1, tx: 2, amount: dec("1") },
        Event::Dispute { client: 1, tx: 1 },
        Event::Chargeback { client: 1, tx: 1 },
    ]);
    let frozen = snapshot(&engine, &[1, 2, 3]);
    for event in [
        Event::Deposit { client: 1, tx: 3, amount: dec("1") },
        Event::Withdrawal { client: 1, tx: 3, amount: dec("1") },
        Event::Dispute { client: 1, tx: 2 },
        Event::Resolve { client: 1, tx: 1 },
        Event::Chargeback { client: 1, tx: 1 },
    ] {
        engine.apply(event);
        assert_eq!(snapshot(&engine, &[1, 2, 3]), frozen);
    }
}

#[test]
fn events_of_one_client_leave_others_alone() {
    let mut engine = run(&[
        Event::Deposit { client: 1, tx: 1, amount: dec("3") },
        Event::Deposit { client: 2, tx: 2, amount: dec("5") },
    ]);
    let other = engine.account(2).unwrap();
    engine.apply(Event::Dispute { client: 1, tx: 1 });
    engine.apply(Event::Chargeback { client: 1, tx: 1 });
    engine.apply(Event::Withdrawal { client: 3, tx: 9, amount: dec("1") });
    assert_eq!(engine.account(2).unwrap(), other);
    assert_eq!(engine.accounts().len(), 3);
}

#[test]
fn accounts_lists_each_client_once() {
    let engine = run(&[
        Event::Deposit { client: 5, tx: 1, amount: dec("1") },
        Event::Dispute { client: 9, tx: 77 },
        Event::Deposit { client: 5, tx: 2, amount: dec("1") },
        Event::Withdrawal { client: 0, tx: 3, amount: dec("1") },
    ]);
    let clients: Vec<u16> = engine.accounts().iter().map(|a| a.client()).collect();
    assert_eq!(clients, vec![5, 9, 0]);
}

#[test]
fn fits_refuses_a_deposit_beyond_the_decimal_range() {
    let mut engine = run(&[Event::Deposit { client: 1, tx: 1, amount: Amount::from_units(MAX_BALANCE - 1) }]);
    assert!(engine.fits(&Event::Deposit { client: 1, tx: 2, amount: Amount::from_units(1) }));
    assert!(!engine.fits(&Event::Deposit { client: 1, tx: 2, amount: Amount::from_units(2) }));
    // An ignored deposit never raises a total, whatever its amount.
    assert!(engine.fits(&Event::Deposit { client: 1, tx: 1, amount: Amount::from_units(i128::MAX) }));
    assert!(engine.fits(&Event::Deposit { client: 1, tx: 2, amount: Amount::from_units(-5) }));
    assert!(!engine.fits(&Event::Deposit { client: 2, tx: 2, amount: Amount::from_units(MAX_BALANCE + 1) }));
    engine.apply(Event::Deposit { client: 1, tx: 2, amount: Amount::from_units(1) });
    assert_eq!(engine.account(1).unwrap().total().units, MAX_BALANCE);
}

#[test]
fn tx_record_reports_what_an_id_stands_for() {
    let engine = run(&[
        Event::Deposit { client: 1, tx: 1, amount: dec("3") },
        Event::Withdrawal { client: 1, tx: 2, amount: dec("9") },
    ]);
    assert!(matches!(engine.tx_record(1), Some(TxRecord::Deposit(d)) if d.client == 1 && d.amount == dec("3")));
    assert_eq!(engine.tx_record(2), Some(TxRecord::Consumed));
    assert_eq!(engine.tx_record(3), None);
    assert!(engine.account(2).is_none());
}

#[test]
fn default_engine_is_empty() {
    let engine = Engine::default();
    assert!(engine.accounts().is_empty());
}
