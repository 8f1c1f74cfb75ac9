//! Turning the fields of an input row into an event.
use std::path::PathBuf;

use vstd::prelude::*;

use crate::amount::{decimal_read_in_range, lemma_parsed_amount_fits, parsed_amount, Amount};
use crate::digits::unsigned_text_value;
use crate::types::{ClientId, Event, TxId};

verus! {

#[verifier::external_type_specification]
#[verifier::external_body]
pub struct ExPathBuf(PathBuf);

/// The client id that a text names, as `u16::from_str` reads it.
pub open spec fn client_id_of(text: Seq<char>) -> Option<ClientId> {
    match unsigned_text_value(text) {
        Some(v) => if v <= u16::MAX {
            Some(v as ClientId)
        } else {
            None
        },
        None => None,
    }
}

/// The transaction id that a text names, as `u32::from_str` reads it.
pub open spec fn tx_id_of(text: Seq<char>) -> Option<TxId> {
    match unsigned_text_value(text) {
        Some(v) => if v <= u32::MAX {
            Some(v as TxId)
        } else {
            None
        },
        None => None,
    }
}

/// Reads a client id with the standard library's `str::parse::<u16>`.
///
/// Claimed, as the standard library documents `from_str_radix`: the text is
/// accepted exactly when it is an optional `+` followed by one or more decimal
/// digits and nothing else, and its value fits in a `u16`.
#[verifier::external_body]
fn parse_u16(text: &str) -> (r: Option<u16>)
    ensures
        r == client_id_of(text@),
{
    text.parse::<u16>().ok()
}

/// Reads a transaction id with the standard library's `str::parse::<u32>`.
///
/// Claimed, as the standard library documents `from_str_radix`: the text is
/// accepted exactly when it is an optional `+` followed by one or more decimal
/// digits and nothing else, and its value fits in a `u32`.
#[verifier::external_body]
fn parse_u32(text: &str) -> (r: Option<u32>)
    ensures
        r == tx_id_of(text@),
{
    text.parse::<u32>().ok()
}

/// The text of an optional field.
pub open spec fn field_text(field: Option<String>) -> Option<Seq<char>> {
    match field {
        Some(s) => Some(s@),
        None => None,
    }
}

/// The amount a deposit or withdrawal row carries: present, not empty, and
/// read as a decimal rounded to four places.
pub open spec fn required_amount(field: Option<Seq<char>>) -> Option<Amount> {
    match field {
        Some(t) => if t.len() == 0 {
            None
        } else {
            match parsed_amount(t) {
                Some(v) => Some(Amount { units: v as i128 }),
                None => None,
            }
        },
        None => None,
    }
}

/// The event that an input row stands for, if it stands for one: the ids must
/// read as numbers, the type must be one of the five (case-sensitive), and a
/// deposit or withdrawal must carry an amount; any amount on the other three
/// is ignored.
pub open spec fn row_event(
    kind: Seq<char>,
    client: Seq<char>,
    tx: Seq<char>,
    amount: Option<Seq<char>>,
) -> Option<Event> {
    match (client_id_of(client), tx_id_of(tx)) {
        (Some(client), Some(tx)) => if kind == "deposit"@ {
            match required_amount(amount) {
                Some(amount) => Some(Event::Deposit { client, tx, amount }),
                None => None,
            }
        } else if kind == "withdrawal"@ {
            match required_amount(amount) {
                Some(amount) => Some(Event::Withdrawal { client, tx, amount }),
                None => None,
            }
        } else if kind == "dispute"@ {
            Some(Event::Dispute { client, tx })
        } else if kind == "resolve"@ {
            Some(Event::Resolve { client, tx })
        } else if kind == "chargeback"@ {
            Some(Event::Chargeback { client, tx })
        } else {
            None
        },
        _ => None,
    }
}

/// Law: a deposit or withdrawal row whose ids read and whose amount field is
/// not empty stands for an event exactly when `Amount::parse` reads the
/// amount, and then the event carries that very amount, sign included.
pub proof fn lemma_row_amount_is_parsed(
    kind: Seq<char>,
    client: Seq<char>,
    tx: Seq<char>,
    text: Seq<char>,
)
    requires
        kind == "deposit"@ || kind == "withdrawal"@,
        client_id_of(client) is Some,
        tx_id_of(tx) is Some,
        text.len() > 0,
        decimal_read_in_range(text),
    ensures
        row_event(kind, client, tx, Some(text)) is Some <==> parsed_amount(text) is Some,
        row_event(kind, client, tx, Some(text)) matches Some(e) ==> (match e {
            Event::Deposit { client: c, tx: t, amount } => kind == "deposit"@ && amount@
                == parsed_amount(text)->Some_0 && Some(c) == client_id_of(client) && Some(t)
                == tx_id_of(tx),
            Event::Withdrawal { client: c, tx: t, amount } => kind == "withdrawal"@ && amount@
                == parsed_amount(text)->Some_0 && Some(c) == client_id_of(client) && Some(t)
                == tx_id_of(tx),
            _ => false,
        }),
{
    lemma_parsed_amount_fits(text);
    if kind == "deposit"@ {
        assert(kind != "withdrawal"@) by {
            reveal_strlit("deposit");
            reveal_strlit("withdrawal");
            assert(kind.len() != "withdrawal"@.len());
        }
    }
}

/// The fields of one input row, as text.
pub struct RawRow {
    pub kind: String,
    pub client: String,
    pub tx: String,
    pub amount: Option<String>,
}

/// The amount field of a deposit or withdrawal row.
fn parse_required_amount(amount: &Option<String>) -> (r: Option<Amount>)
    ensures
        r == required_amount(field_text(*amount)),
{
    match amount {
        Some(text) => {
            if text.as_str().is_empty() {
                None
            } else {
                match Amount::parse(text.as_str()) {
                    Some(a) => Some(a),
                    None => None,
                }
            }
        },
        None => None,
    }
}

impl RawRow {
    /// The event the row stands for; `None` for a row to skip.
    pub fn into_event(self) -> (r: Option<Event>)
        ensures
            r == row_event(self.kind@, self.client@, self.tx@, field_text(self.amount)),
    {
        let client = match parse_u16(self.client.as_str()) {
            Some(c) => c,
            None => return None,
        };
        let tx = match parse_u32(self.tx.as_str()) {
            Some(t) => t,
            None => return None,
        };
        if self.kind == "deposit".to_owned() {
            match parse_required_amount(&self.amount) {
                Some(amount) => Some(Event::Deposit { client, tx, amount }),
                None => None,
            }
        } else if self.kind == "withdrawal".to_owned() {
            match parse_required_amount(&self.amount) {
                Some(amount) => Some(Event::Withdrawal { client, tx, amount }),
                None => None,
            }
        } else if self.kind == "dispute".to_owned() {
            Some(Event::Dispute { client, tx })
        } else if self.kind == "resolve".to_owned() {
            Some(Event::Resolve { client, tx })
        } else if self.kind == "chargeback".to_owned() {
            Some(Event::Chargeback { client, tx })
        } else {
            None
        }
    }
}

/// The source of events: a CSV file, named by its path.
pub struct CSVConsumer {
    path: PathBuf,
}

impl CSVConsumer {
    /// The path the consumer reads.
    pub closed spec fn source(&self) -> PathBuf {
        self.path
    }

    /// A consumer of the CSV file at `path`.
    pub fn new(path: PathBuf) -> (r: CSVConsumer)
        ensures
            r.source() == path,
    {
        CSVConsumer { path }
    }

    /// The path of the CSV file.
    pub fn path(&self) -> (r: &PathBuf)
        ensures
            *r == self.source(),
    {
        &self.path
    }
}

} // verus!
