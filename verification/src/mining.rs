//! The proof-of-work search: probe the nonce domain in parallel until a
//! header hash meets the difficulty target, honoring a shared cooperative
//! cancellation flag and counting attempts into a shared counter.

use vstd::prelude::*;
use std::sync::atomic::{AtomicBool, AtomicU64, Ordering};
use rayon::iter::IntoParallelIterator;
use rayon::iter::ParallelIterator;
use crate::block::{Block, block_hash_with_nonce};
use crate::difficulty::{count_leading_zeros, meets_difficulty};
use crate::hashing::header_digest;

verus! {

/// Why a mining attempt failed: the shared flag was observed set, or the
/// whole nonce domain was exhausted without a match.
#[derive(Debug, PartialEq)]
pub enum MiningError {
    Interrupted,
    NoValidNonceFound,
}

/// One probe: observes the cancellation flag, then tests the candidate nonce
/// against the difficulty target, counting the attempt.
fn probe_nonce(
    block: &Block,
    nonce: u64,
    difficulty: u32,
    cancel: &AtomicBool,
    attempts: &AtomicU64,
) -> (hit: bool)
    ensures
        count_leading_zeros(block_hash_with_nonce(*block, nonce)) >= difficulty ==> hit,
{
    if cancel.load(Ordering::SeqCst) {
        return true;
    }
    let hash = header_digest(
        block.index,
        block.timestamp,
        block.previous_hash.as_str(),
        block.merkle_root.as_str(),
        nonce,
        block.difficulty,
    );
    attempts.fetch_add(1, Ordering::SeqCst);
    meets_difficulty(hash.as_str(), difficulty)
}

/// Relies on rayon's `ParallelIterator::find_any` over the nonce range
/// `0..u64::MAX`: it returns Some item of the range for which the predicate
/// returned true, and returns None only after the predicate returned false
/// for every item of the range. With `probe_nonce` as the predicate, a None
/// therefore means that no nonce in the range meets the target.
#[verifier::external_body]
fn par_find_nonce(
    block: &Block,
    difficulty: u32,
    cancel: &AtomicBool,
    attempts: &AtomicU64,
) -> (found: Option<u64>)
    ensures
        found matches Some(n) ==> n < u64::MAX,
        found is None ==> forall|n: u64|
            n < u64::MAX ==> count_leading_zeros(
                #[trigger] block_hash_with_nonce(*block, n),
            ) < difficulty,
{
    (0..u64::MAX)
        .into_par_iter()
        .find_any(|&nonce| probe_nonce(block, nonce, difficulty, cancel, attempts))
}

/// Searches for a nonce whose header hash has at least `difficulty` leading
/// zero characters. On success the nonce and the recomputed hash are stored
/// in the block; every other header field is left untouched. On failure the
/// block is unchanged. A set cancellation flag wins over a concurrently
/// found nonce.
pub fn mine_block(
    block: &mut Block,
    difficulty: u32,
    cancel: &AtomicBool,
    attempts: &AtomicU64,
) -> (r: Result<(), MiningError>)
    ensures
        r is Ok ==> {
            &&& final(block).index == old(block).index
            &&& final(block).timestamp == old(block).timestamp
            &&& final(block).previous_hash@ == old(block).previous_hash@
            &&& final(block).merkle_root@ == old(block).merkle_root@
            &&& final(block).difficulty == old(block).difficulty
            &&& final(block).transactions@ == old(block).transactions@
            &&& final(block).hash@ == block_hash_with_nonce(*final(block), final(block).nonce)
            &&& count_leading_zeros(final(block).hash@) >= difficulty
        },
        r is Err ==> *final(block) == *old(block),
        (r matches Err(e) && e is NoValidNonceFound) ==> forall|n: u64|
            n < u64::MAX ==> count_leading_zeros(
                #[trigger] block_hash_with_nonce(*old(block), n),
            ) < difficulty,
{
    let found = par_find_nonce(block, difficulty, cancel, attempts);

    if cancel.load(Ordering::SeqCst) {
        return Err(MiningError::Interrupted);
    }

    match found {
        None => Err(MiningError::NoValidNonceFound),
        Some(nonce) => {
            let hash = header_digest(
                block.index,
                block.timestamp,
                block.previous_hash.as_str(),
                block.merkle_root.as_str(),
                nonce,
                block.difficulty,
            );
            if meets_difficulty(hash.as_str(), difficulty) {
                block.nonce = nonce;
                block.hash = hash;
                Ok(())
            } else {
                // The predicate can only have returned true for a nonce that
                // misses the target if the flag was set during the search.
                Err(MiningError::Interrupted)
            }
        },
    }
}

} // verus!
