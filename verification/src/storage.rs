//! The transaction store: an append-only record of every deposit, kept
//! so that a later dispute can look up the owning client and amount.

use std::collections::HashMap;

use vstd::prelude::*;

use crate::types::{Amount, ClientId, TransactionId};

verus! {

broadcast use vstd::std_specs::hash::group_hash_axioms;

/// The stored record of a deposit: its owning client and its amount.
pub type TransactionType = (ClientId, Amount);

/// An append-only map from transaction id to the deposit it recorded.
/// A record, once inserted, is never changed or removed.
pub struct TransactionsDatabase {
    transactions: HashMap<TransactionId, TransactionType>,
}

impl View for TransactionsDatabase {
    type V = Map<TransactionId, TransactionType>;

    closed spec fn view(&self) -> Map<TransactionId, TransactionType> {
        self.transactions@
    }
}

impl TransactionsDatabase {
    /// An empty store.
    pub fn new() -> (r: TransactionsDatabase)
        ensures
            r@ == Map::<TransactionId, TransactionType>::empty(),
    {
        TransactionsDatabase { transactions: HashMap::new() }
    }

    /// Records `transaction` under `transaction_id`. A duplicate id is
    /// rejected: the store keeps the record it already holds.
    pub fn insert(&mut self, transaction_id: TransactionId, transaction: TransactionType)
        ensures
            final(self)@ == if old(self)@.contains_key(transaction_id) {
                old(self)@
            } else {
                old(self)@.insert(transaction_id, transaction)
            },
    {
        if !self.transactions.contains_key(&transaction_id) {
            self.transactions.insert(transaction_id, transaction);
        }
    }

    /// Looks up the record stored under `transaction_id`.
    pub fn get(&self, transaction_id: TransactionId) -> (r: Option<TransactionType>)
        ensures
            r == if self@.contains_key(transaction_id) {
                Some(self@[transaction_id])
            } else {
                None::<TransactionType>
            },
    {
        match self.transactions.get(&transaction_id) {
            Some(t) => Some(*t),
            None => None,
        }
    }

    /// Whether a record is stored under `transaction_id`.
    pub fn contains_key(&self, transaction_id: TransactionId) -> (r: bool)
        ensures
            r == self@.contains_key(transaction_id),
    {
        self.transactions.contains_key(&transaction_id)
    }
}

} // verus!
