use rust_challenge::{Amount, Event, RawRow};

/// The sample input of the brief: five events for two clients.
const SAMPLE_CSV: &str = "type,client,tx,amount
deposit,1,1,1.0
deposit,2,2,2.0
deposit,1,3,2.0
withdrawal,1,4,1.5
withdrawal,2,5,3.0
";

fn dec(s: &str) -> Amount {
    Amount::parse(s).expect("valid test amount")
}

/// Reads CSV text as the input reader does (fields trimmed, rows of varying
/// length accepted, a header row) and keeps the events of the rows that stand
/// for one.
fn parse_csv(input: &str) -> Vec<Event> {
    let mut reader = csv::ReaderBuilder::new()
        .trim(csv::Trim::All)
        .flexible(true)
        .has_headers(true)
        .from_reader(input.as_bytes());
    let mut events = Vec::new();
    for record in reader.records() {
        let Ok(record) = record else { continue };
        let field = |i: usize| record.get(i).map(|s| s.to_string());
        let (Some(kind), Some(client), Some(tx)) = (field(0), field(1), field(2)) else {
            continue;
        };
        let row = RawRow {
            kind,
            client,
            tx,
            amount: field(3).filter(|s| !s.is_empty()),
        };
        if let Some(event) = row.into_event() {
            events.push(event);
        }
    }
    events
}

#[test]
fn sample_csv_yields_five_events_in_file_order() {
    let events: Vec<Event> = parse_csv(SAMPLE_CSV);

    assert_eq!(
        events,
        vec![
            Event::Deposit {
                client: 1,
                tx: 1,
                amount: dec("1.0"),
            },
            Event::Deposit {
                client: 2,
                tx: 2,
                amount: dec("2.0"),
            },
            Event::Deposit {
                client: 1,
                tx: 3,
                amount: dec("2.0"),
            },
            Event::Withdrawal {
                client: 1,
                tx: 4,
                amount: dec("1.5"),
            },
            Event::Withdrawal {
                client: 2,
                tx: 5,
                amount: dec("3.0"),
            },
        ]
    );
}

#[test]
fn whitespace_around_fields_is_trimmed() {
    let events = parse_csv(
        "type, client, tx, amount\n\
         deposit, 1, 1, 1.0\n\
         withdrawal,  2,  2,  2.0000\n",
    );

    assert_eq!(
        events,
        vec![
            Event::Deposit {
                client: 1,
                tx: 1,
                amount: dec("1.0"),
            },
            Event::Withdrawal {
                client: 2,
                tx: 2,
                amount: dec("2.0000"),
            },
        ]
    );
}

#[test]
fn brief_sample_with_spaces_after_commas_parses() {
    let events = parse_csv(
        "type, client, tx, amount\n\
         deposit, 1, 1, 1.0\n\
         deposit, 2, 2, 2.0\n\
         deposit, 1, 3, 2.0\n\
         withdrawal, 1, 4, 1.5\n\
         withdrawal, 2, 5, 3.0\n",
    );
    assert_eq!(events.len(), 5);
    assert_eq!(
        events[0],
        Event::Deposit {
            client: 1,
            tx: 1,
            amount: dec("1.0"),
        }
    );
    assert_eq!(
        events[4],
        Event::Withdrawal {
            client: 2,
            tx: 5,
            amount: dec("3.0"),
        }
    );
}

#[test]
fn dispute_resolve_chargeback_accept_three_fields_without_amount() {
    let events = parse_csv(
        "type, client, tx, amount\n\
         deposit, 1, 1, 1.0\n\
         dispute, 1, 1\n\
         resolve, 1, 1\n\
         chargeback, 1, 1\n",
    );
    assert_eq!(
        events,
        vec![
            Event::Deposit {
                client: 1,
                tx: 1,
                amount: dec("1.0"),
            },
            Event::Dispute { client: 1, tx: 1 },
            Event::Resolve { client: 1, tx: 1 },
            Event::Chargeback { client: 1, tx: 1 },
        ]
    );
}

#[test]
fn amount_on_dispute_resolve_chargeback_is_ignored() {
    let events = parse_csv(
        "type,client,tx,amount\n\
         dispute,1,1,99.0\n\
         resolve,1,1,99.0\n\
         chargeback,1,1,99.0\n",
    );
    assert_eq!(
        events,
        vec![
            Event::Dispute { client: 1, tx: 1 },
            Event::Resolve { client: 1, tx: 1 },
            Event::Chargeback { client: 1, tx: 1 },
        ]
    );
}

#[test]
fn type_is_case_sensitive() {
    let events = parse_csv(
        "type,client,tx,amount\n\
         Deposit,1,1,1.0\n\
         WITHDRAWAL,1,2,1.0\n\
         Dispute,1,1,\n",
    );
    assert!(events.is_empty());
}

#[test]
fn client_and_tx_id_bounds() {
    let ok = parse_csv(&format!(
        "type,client,tx,amount\ndeposit,{},{},1.0\n",
        u16::MAX,
        u32::MAX
    ));
    assert_eq!(
        ok,
        vec![Event::Deposit {
            client: u16::MAX,
            tx: u32::MAX,
            amount: dec("1.0"),
        }]
    );

    assert!(parse_csv("type,client,tx,amount\ndeposit,65536,1,1.0\n").is_empty());
    assert!(parse_csv("type,client,tx,amount\ndeposit,1,4294967296,1.0\n").is_empty());
}

#[test]
fn extra_decimal_places_rescale_to_four() {
    let events = parse_csv("type,client,tx,amount\ndeposit,1,1,1.23456\n");
    match events.as_slice() {
        [Event::Deposit { amount, .. }] => assert_eq!(*amount, dec("1.2346")),
        other => panic!("expected one deposit, got {other:?}"),
    }
}

#[test]
fn amounts_with_varying_precision_parse_as_one() {
    let events = parse_csv(
        "type,client,tx,amount\n\
         deposit,1,1,1\n\
         deposit,1,2,1.0\n\
         deposit,1,3,1.0000\n",
    );

    let expected = dec("1.0000");
    assert_eq!(events.len(), 3);
    for event in events {
        match event {
            Event::Deposit { amount, .. } => assert_eq!(amount, expected),
            other => panic!("expected deposit, got {other:?}"),
        }
    }
}

#[test]
fn skippable_row_errors_do_not_abort_later_rows() {
    let events = parse_csv(
        "type,client,tx,amount\n\
         deposit,1,1,1.0\n\
         transfer,1,2,1.0\n\
         deposit,1,3,2.0\n\
         deposit,1,4,\n\
         deposit,1,5,3.0\n\
         deposit,abc,6,1.0\n\
         deposit,1,7,1.0000\n\
         deposit,1,xyz,1.0\n\
         deposit,1,8,1\n\
         deposit,1,9,not-a-number\n\
         deposit,1,10,1.0\n",
    );

    assert_eq!(
        events,
        vec![
            Event::Deposit {
                client: 1,
                tx: 1,
                amount: dec("1.0"),
            },
            Event::Deposit {
                client: 1,
                tx: 3,
                amount: dec("2.0"),
            },
            Event::Deposit {
                client: 1,
                tx: 5,
                amount: dec("3.0"),
            },
            Event::Deposit {
                client: 1,
                tx: 7,
                amount: dec("1.0000"),
            },
            Event::Deposit {
                client: 1,
                tx: 8,
                amount: dec("1"),
            },
            Event::Deposit {
                client: 1,
                tx: 10,
                amount: dec("1.0"),
            },
        ]
    );
}
