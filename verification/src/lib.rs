//! A single-pass ledger: replays an ordered log of deposits, withdrawals,
//! disputes, resolutions and chargebacks into per-client account balances,
//! with every amount held as an exact count of ten-thousandths.
//!
//! - [`amount`] and [`order`]: the fixed-point [`Amount`], its arithmetic
//!   and its order.
//! - [`decimal`]: amounts read from and written as decimal text.
//! - [`transaction`] and [`account`]: the records that come in and the
//!   balances that come out.
//! - [`engine`]: what each kind of record does to the account table.
//! - [`ledger`]: a ledger under replay, one record at a time or a whole
//!   log at once.
//! - [`laws`]: what holds of a ledger after any log whatever.

pub mod account;
pub mod amount;
pub mod decimal;
pub mod engine;
pub mod laws;
pub mod ledger;
pub mod order;
pub mod transaction;

pub use account::Account;
pub use amount::Amount;
pub use decimal::InvalidAmount;
pub use engine::{chargeback, deposit, dispute, resolve, withdrawal, Outcome};
pub use ledger::{process_transactions, Ledger};
pub use transaction::{InvalidRecord, Transaction, TxType};
