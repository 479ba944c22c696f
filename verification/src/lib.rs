//! Replays an ordered stream of deposits, withdrawals, disputes, resolutions
//! and chargebacks against per-client accounts.
//!
//! Amounts are exact decimals. The arithmetic on them is done by
//! `rust_decimal`, and every sum and difference it returns is checked to be
//! exact before a balance takes it: a transaction whose result would not be
//! exact is rejected and changes nothing.
//!
//! - [`amount`]: the decimal amounts and their checked arithmetic.
//! - [`decimal`]: the calls into `rust_decimal`, taken on trust.
//! - [`model`]: transactions, ledger records, accounts and outcomes.
//! - [`ledger`], [`book`]: the two stores.
//! - [`rules`]: what each kind of transaction does, as mathematical functions.
//! - [`engine`]: the handlers and the dispatcher, proved against the rules.
//! - [`input`]: reading a transaction from the text fields of a row.
//! - [`laws`], [`holds`]: what holds of the rules for every input.

pub mod amount;
pub mod book;
pub mod decimal;
pub mod engine;
pub mod holds;
pub mod input;
pub mod laws;
pub mod ledger;
pub mod model;
pub mod rules;
