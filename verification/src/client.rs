//! Per-client account state and the account store.

pub mod account;
pub mod ledger;

pub use account::Account;
pub use ledger::Id;
pub use ledger::Ledger;
