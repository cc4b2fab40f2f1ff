//! A tiny verified payments ledger.
//!
//! The crate ingests per-client financial transactions (deposits,
//! withdrawals, disputes, resolutions and chargebacks), validates each one,
//! mutates the affected account, keeps a dispute-aware record of prior
//! deposits, and compensates when persistence fails. Balances are exact
//! fixed-point decimals; no money is created or destroyed under partial
//! failure.

pub mod account;
pub mod amount;
pub mod common;
pub mod csv;
pub mod engine;
pub mod laws;
pub mod memory_store;
pub mod process;
pub mod store;
pub mod text;
pub mod transaction;

pub use amount::Amount;
