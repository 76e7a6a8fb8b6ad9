//! A single-node proof-of-work ledger: transactions are committed to a block
//! through a Merkle root, a nonce satisfying a leading-zero difficulty target
//! is searched for in parallel, and the chain retargets its difficulty and
//! halves its mining reward on fixed intervals.

pub mod block;
pub mod chain;
pub mod clock;
pub mod difficulty;
pub mod hashing;
pub mod merkle;
pub mod mining;
pub mod transaction;
