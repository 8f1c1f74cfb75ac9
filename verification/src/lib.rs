//! A streaming payments ledger: a sequential engine that applies deposits,
//! withdrawals, disputes, resolves and chargebacks to per-client accounts,
//! together with the row-level parsing and formatting around it.
pub mod amount;
pub mod decimal;
pub mod digits;
pub mod engine;
pub mod error;
pub mod input;
pub mod laws;
pub mod output;
pub mod ledger;
pub mod types;

pub use amount::{Amount, MAX_BALANCE};
pub use types::{Account, AccountView, ClientId, Event, TxId};
pub use ledger::{DepositState, Ledger, TxView};
pub use engine::{DepositRecord, Engine, TxRecord};
pub use input::{CSVConsumer, RawRow};
pub use output::{OutputRow, StdoutProducer};
pub use error::IoError;
