//! Failures of a single account mutation. The account state is left
//! unchanged whenever one of these is returned.

use vstd::prelude::*;

verus! {

/// Why an account rejected a mutation.
#[derive(Clone, Copy, Debug, PartialEq, Eq, Structural)]
pub enum ClientAccountError {
    /// The requested amount was below zero.
    NegativeAmount,
    /// A withdrawal asked for more than the available funds.
    InsufficientBalance,
    /// The account was frozen by an earlier chargeback.
    Locked,
}

} // verus!
