//! A ledger engine that replays an ordered stream of payment records
//! (deposits, withdrawals, disputes, resolutions and chargebacks) against
//! per-client accounts, verified with Verus.
//!
//! All money is held in fixed point: an `i64` counts ten-thousandths of a
//! currency unit, so four fractional digits are exact.
//!
//! - [`record`] and [`account`] hold the data: transaction records and the
//!   balances of a client, with the rules for deposits and withdrawals.
//! - [`engine`] holds the rules of the engine as a mathematical model, and
//!   the executable functions that are proved to follow it.
//! - [`laws`], [`holdings`] and [`acceptance`] prove what holds of every
//!   replay: the accounting identity, the finality of a locked account, what
//!   the held funds stand for, and which streams are replayed to their end.
//! - [`decimal`] and [`decode`] read the input; [`report`] writes the
//!   accounts out; [`run`] puts the three together.
pub mod acceptance;
pub mod account;
pub mod decimal;
pub mod decode;
pub mod engine;
pub mod holdings;
pub mod laws;
pub mod record;
pub mod report;
pub mod run;

pub use account::{deposit, withdraw, Client, LedgerError};
pub use decimal::{parse_amount, render_amount};
pub use decode::{parse_transactions, DecodeError};
pub use engine::{
    apply, charge_back, dispute, get_or_create, process_transactions, process_transactions_with,
    record_history, resolve, Rejection,
};
pub use record::{Transaction, TransactionCategory};
pub use report::{render_account, render_report};
pub use run::{run, RunError};
