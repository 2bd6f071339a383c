//! Report rendering for a plaintext double-entry ledger.
//!
//! The crate aggregates postings into per-account, per-commodity balances,
//! maintains running totals across a transaction stream, and lays the results
//! out as aligned text: a flat balance report and a register report.

pub mod aggregate;
pub mod balance;
pub mod format;
pub mod laws;
pub mod model;
pub mod rational;
pub mod register;
pub mod span;
pub mod text;
pub mod totals;
