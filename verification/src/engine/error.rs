//! Failures of the engine's transaction dispatch. A rejected
//! transaction leaves the whole engine state unchanged, except that a
//! rejected deposit or withdrawal may still have created the (empty)
//! account it referenced.

use vstd::prelude::*;

use crate::client::error::ClientAccountError;
use crate::types::{ClientId, TransactionId};

verus! {

/// Why the engine rejected a transaction.
#[derive(Clone, Copy, Debug, PartialEq, Eq, Structural)]
pub enum EngineError {
    /// A dispute-lifecycle transaction named a client with no account.
    ClientNotFound,
    /// The targeted account rejected the mutation.
    ClientAccountError(ClientAccountError),
    /// A deposit or withdrawal carried no amount.
    InvalidLedger(TransactionId),
    /// A dispute-lifecycle transaction named an id the store does not
    /// hold.
    TransactionNotFound(TransactionId),
    /// A dispute named an id that is already under dispute.
    TransactionAlreadyDisputed(TransactionId),
    /// A resolve or chargeback named an id that is not under dispute.
    TransactionNotDisputed(TransactionId),
    /// A dispute-lifecycle transaction named an id owned by another
    /// client.
    NotClientOwnedTransaction(TransactionId, ClientId),
    /// A deposit or withdrawal reused an id the store already holds.
    TransactionAlreadyExists,
}

} // verus!
