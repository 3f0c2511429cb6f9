//! The payments engine: dispatch of typed transactions against the
//! ledger, the transaction store and the dispute tracker.

pub mod error;
pub mod payments_engine;
