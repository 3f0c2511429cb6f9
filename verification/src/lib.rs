//! A small payments ledger: deposits, withdrawals and the dispute
//! lifecycle (dispute, resolve, chargeback) applied to per-client
//! accounts, with a fixed-point decimal amount type and a final
//! balance report.

pub mod client;
pub mod engine;
pub mod payments_engine;
pub mod report;
pub mod storage;
pub mod transaction;
pub mod types;
