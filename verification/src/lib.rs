//! A single-pass ledger engine: it replays an ordered stream of financial
//! transactions against per-client accounts, with a dispute/resolve/chargeback
//! lifecycle layered on top of prior deposits and withdrawals.
//!
//! Monetary amounts are exact fixed-point values: an `i64` counts units of
//! 1/10_000 of the currency, so every amount carries at most four fractional
//! digits and arithmetic is exact.

pub mod client;
pub mod engine;
pub mod transaction;
