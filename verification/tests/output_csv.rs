//! The account rows as the output writer lays them out: a header row, then one
//! CSV row per account built from `OutputRow`.
use std::collections::HashSet;

use rust_challenge::{Account, Amount, Engine, Event, OutputRow};

fn dec(s: &str) -> Amount {
    Amount::parse(s).expect("valid test amount")
}

fn accounts_after(events: &[Event]) -> Vec<Account> {
    let mut engine = Engine::new();
    for event in events {
        assert!(engine.fits(event));
        engine.apply(*event);
    }
    engine.accounts()
}

/// Writes the header and one row per account, as the output writer does.
fn write_rows<'a>(accounts: impl IntoIterator<Item = &'a Account>) -> Vec<u8> {
    let mut buf = Vec::new();
    {
        let mut writer = csv::WriterBuilder::new()
            .has_headers(false)
            .from_writer(&mut buf);
        writer
            .write_record(["client", "available", "held", "total", "locked"])
            .expect("header writes");
        for account in accounts {
            let row = OutputRow::from_account(account);
            writer
                .write_record([
                    row.client.to_string(),
                    row.available,
                    row.held,
                    row.total,
                    row.locked.to_string(),
                ])
                .expect("row writes");
        }
        writer.flush().expect("flush");
    }
    buf
}

#[test]
fn brief_sample_snapshots_write_two_rows_in_any_order() {
    let accounts = accounts_after(&[
        Event::Deposit { client: 1, tx: 1, amount: dec("1.5") },
        Event::Deposit { client: 2, tx: 2, amount: dec("2.0") },
    ]);

    let buf = write_rows(accounts.iter());

    let mut reader = csv::Reader::from_reader(buf.as_slice());
    let mut got = HashSet::new();
    for row in reader.records() {
        let row = row.expect("output row parses");
        got.insert((
            row[0].parse::<u16>().unwrap(),
            dec(&row[1]),
            dec(&row[2]),
            dec(&row[3]),
            row[4].parse::<bool>().unwrap(),
            row[1].to_string(),
            row[2].to_string(),
            row[3].to_string(),
        ));
    }

    let expected = HashSet::from([
        (
            1,
            dec("1.5"),
            dec("0"),
            dec("1.5"),
            false,
            "1.5000".to_string(),
            "0.0000".to_string(),
            "1.5000".to_string(),
        ),
        (
            2,
            dec("2.0"),
            dec("0"),
            dec("2.0"),
            false,
            "2.0000".to_string(),
            "0.0000".to_string(),
            "2.0000".to_string(),
        ),
    ]);
    assert_eq!(got, expected);
}

#[test]
fn empty_account_list_writes_header_only() {
    let buf = write_rows(std::iter::empty());
    assert_eq!(
        String::from_utf8(buf).unwrap(),
        "client,available,held,total,locked\n"
    );
}

#[test]
fn locked_true_and_zero_balances_serialize() {
    let accounts = accounts_after(&[
        Event::Deposit { client: 1, tx: 1, amount: dec("1") },
        Event::Dispute { client: 1, tx: 1 },
        Event::Chargeback { client: 1, tx: 1 },
    ]);
    let buf = write_rows(accounts.iter());
    let stdout = String::from_utf8(buf).unwrap();
    assert!(stdout.contains("client,available,held,total,locked"));
    assert!(stdout.contains("true"));
    let mut reader = csv::Reader::from_reader(stdout.as_bytes());
    let row = reader.records().next().unwrap().unwrap();
    assert_eq!(row[0].parse::<u16>().unwrap(), 1);
    assert_eq!(dec(&row[1]), dec("0"));
    assert_eq!(dec(&row[2]), dec("0"));
    assert_eq!(dec(&row[3]), dec("0"));
    assert!(row[4].parse::<bool>().unwrap());
    assert_eq!(&row[1], "0.0000");
    assert_eq!(&row[2], "0.0000");
    assert_eq!(&row[3], "0.0000");
}
