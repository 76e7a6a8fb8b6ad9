//! Transactions: immutable records with a content-derived identifier.

use vstd::prelude::*;
use crate::clock::now_millis;
use crate::hashing::{tx_id_of, transaction_digest};

verus! {

/// A value transfer. `id` is the digest of the other fields' record and is
/// recomputed at construction, never set from outside.
#[derive(Debug, Clone, PartialEq)]
pub struct Transaction {
    pub id: String,
    pub from: String,
    pub to: String,
    pub amount: u64,
    pub timestamp: u64,
    pub signature: String,
}

/// The identifier is the digest of the transaction's own fields.
pub open spec fn tx_wf(t: Transaction) -> bool {
    t.id@ == tx_id_of(t.from@, t.to@, t.amount, t.timestamp, t.signature@)
}

impl Transaction {
    /// Builds a transaction, stamped with the current time, its identifier
    /// derived from its content.
    pub fn new(from: String, to: String, amount: u64, signature: String) -> (t: Transaction)
        ensures
            t.from@ == from@,
            t.to@ == to@,
            t.amount == amount,
            t.signature@ == signature@,
            tx_wf(t),
    {
        let timestamp = now_millis();
        let mut transaction = Transaction {
            id: String::new(),
            from,
            to,
            amount,
            timestamp,
            signature,
        };
        transaction.id = transaction.calculate_hash();
        transaction
    }

    /// Digest of the record `from ‖ to ‖ amount ‖ timestamp ‖ signature`.
    pub fn calculate_hash(&self) -> (r: String)
        ensures
            r@ == tx_id_of(self.from@, self.to@, self.amount, self.timestamp, self.signature@),
    {
        transaction_digest(
            self.from.as_str(),
            self.to.as_str(),
            self.amount,
            self.timestamp,
            self.signature.as_str(),
        )
    }

    /// The reward-granting transaction, always first in its block.
    pub fn coinbase(to: String, amount: u64) -> (t: Transaction)
        ensures
            t.from@ == "coinbase"@,
            t.to@ == to@,
            t.amount == amount,
            t.signature@ == Seq::<char>::empty(),
            tx_wf(t),
    {
        Transaction::new(String::from_str("coinbase"), to, amount, String::new())
    }
}

} // verus!
