//! Cashflow planning: a ledger of recurring monthly payments, one-off
//! transactions and balance snapshots, and the engine that projects the
//! account balance over a horizon of days.
pub mod calendar;
pub mod amount;
pub mod models;
pub mod projection;
pub mod guarantees;
pub mod format;
pub mod cli;
pub mod config;
pub mod input;
pub mod ledger;
pub mod ids;
pub mod listing;
pub mod summary;
