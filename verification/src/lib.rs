//! A verified ledger core for a small budgeting application: an exact
//! integer-minor-unit money codec, an in-memory account and transaction
//! store, balance aggregation, and the account-opening lifecycle.
pub mod balance;
pub mod ledger;
pub mod money;
pub mod store;
