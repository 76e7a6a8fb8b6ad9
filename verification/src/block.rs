//! Blocks: a header over a transaction list, committed through a Merkle root.

use vstd::prelude::*;
use crate::clock::now_millis;
use crate::hashing::{header_digest, header_hash_of};
use crate::merkle::MerkleTree;
use crate::merkle::merkle_root_of;
use crate::transaction::Transaction;

verus! {

/// A block. `hash` stays empty until mining succeeds; `merkle_root` is
/// computed once at construction and never recomputed; only `nonce` (and,
/// on success, `hash`) may change during the mining search.
#[derive(Debug, Clone)]
pub struct Block {
    pub index: u64,
    pub timestamp: u64,
    pub previous_hash: String,
    pub hash: String,
    pub merkle_root: String,
    pub nonce: u64,
    pub difficulty: u32,
    pub transactions: Vec<Transaction>,
}

/// The identifiers of a list of transactions, in order.
pub open spec fn tx_ids_of(txs: Seq<Transaction>) -> Seq<Seq<char>> {
    txs.map_values(|t: Transaction| t.id@)
}

/// A block's header hash, were its nonce the given one.
pub open spec fn block_hash_with_nonce(b: Block, nonce: u64) -> Seq<char> {
    header_hash_of(b.index, b.timestamp, b.previous_hash@, b.merkle_root@, nonce, b.difficulty)
}

impl Block {
    /// Assembles a candidate block: current wall-clock timestamp, Merkle root
    /// over the transaction list, empty hash, nonce zero.
    pub fn new(
        index: u64,
        previous_hash: String,
        difficulty: u32,
        transactions: Vec<Transaction>,
    ) -> (b: Block)
        ensures
            b.index == index,
            b.previous_hash@ == previous_hash@,
            b.difficulty == difficulty,
            b.transactions@ == transactions@,
            b.hash@ == Seq::<char>::empty(),
            b.nonce == 0,
            b.merkle_root@ == merkle_root_of(tx_ids_of(transactions@)),
    {
        let timestamp = now_millis();
        let mut tree = MerkleTree::new(transactions.as_slice());
        let merkle_root = tree.build_tree();

        Block {
            index,
            timestamp,
            previous_hash,
            hash: String::new(),
            merkle_root,
            nonce: 0,
            difficulty,
            transactions,
        }
    }

    /// Digest of the header record
    /// `index ‖ timestamp ‖ previous_hash ‖ merkle_root ‖ nonce ‖ difficulty`.
    pub fn calculate_hash(&self) -> (r: String)
        ensures
            r@ == block_hash_with_nonce(*self, self.nonce),
    {
        header_digest(
            self.index,
            self.timestamp,
            self.previous_hash.as_str(),
            self.merkle_root.as_str(),
            self.nonce,
            self.difficulty,
        )
    }
}

} // verus!
