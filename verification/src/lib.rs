//! A ledger of client accounts driven by a stream of transactions.
pub mod amount;
pub mod text;
pub mod error;
pub mod account;
pub mod transaction;
pub mod engine;
pub mod process;
