//! The chain: an append-only sequence of mined blocks, with the reward
//! schedule and the difficulty retargeting rule.

use vstd::prelude::*;
use std::sync::atomic::{AtomicBool, AtomicU64};
use vstd::arithmetic::div_mod::{
    lemma_basic_div, lemma_div_is_ordered, lemma_div_is_ordered_by_denominator,
    lemma_div_denominator, lemma_div_multiples_vanish, lemma_div_multiples_vanish_fancy,
    lemma_div_nonincreasing, lemma_div_decreases, lemma_div_pos_is_pos,
    lemma_fundamental_div_mod, lemma_mod_division_less_than_divisor,
};
use vstd::arithmetic::power2::{
    lemma2_to64, lemma_pow2_adds, lemma_pow2_pos, lemma_pow2_strictly_increases, pow2,
};
use crate::block::{Block, block_hash_with_nonce, tx_ids_of};
use crate::difficulty::count_leading_zeros;
use crate::hashing::zeros64;
use crate::hashing::zeros_string;
use crate::merkle::merkle_root_of;
use crate::mining::{MiningError, mine_block};
use crate::transaction::Transaction;

verus! {

/// The default difficulty for a fresh chain's genesis block.
pub const INITIAL_DIFFICULTY: u32 = 15;

/// Target seconds between blocks.
pub const BLOCK_TIME_SECONDS: u64 = 10;

/// Number of blocks between difficulty recalculations.
pub const DIFFICULTY_ADJUSTMENT_INTERVAL: u64 = 10;

/// Reward granted by the genesis-era coinbase transactions.
pub const INITIAL_REWARD: u64 = 50;

/// Number of blocks between reward halvings.
pub const HALVING_INTERVAL: u64 = 20;

/// Expected milliseconds spanned by one full retarget window.
pub const EXPECTED_RETARGET_SPAN_MS: u64 = DIFFICULTY_ADJUSTMENT_INTERVAL * BLOCK_TIME_SECONDS
    * 1000;

/// The reward at a block height: the initial reward, halved (integer
/// division) once per elapsed halving interval.
pub open spec fn reward_of(index: nat) -> nat {
    (INITIAL_REWARD as nat) / pow2(index / (HALVING_INTERVAL as nat))
}

/// Sum of the rewards of the first `n` block heights.
pub open spec fn sum_rewards(n: nat) -> nat
    decreases n,
{
    if n == 0 {
        0
    } else {
        sum_rewards((n - 1) as nat) + reward_of((n - 1) as nat)
    }
}

proof fn lemma_reward_le_initial(i: nat)
    ensures
        reward_of(i) <= INITIAL_REWARD,
{
    lemma_pow2_pos(i / (HALVING_INTERVAL as nat));
    lemma_div_nonincreasing(INITIAL_REWARD as int, pow2(i / (HALVING_INTERVAL as nat)) as int);
}

proof fn lemma_reward_zero_after(i: nat)
    requires
        i >= 6 * HALVING_INTERVAL,
    ensures
        reward_of(i) == 0,
{
    let h = i / (HALVING_INTERVAL as nat);
    lemma_div_is_ordered(6 * HALVING_INTERVAL as int, i as int, HALVING_INTERVAL as int);
    lemma_div_multiples_vanish(6, HALVING_INTERVAL as int);
    assert(h >= 6);
    lemma2_to64();
    if h > 6 {
        lemma_pow2_strictly_increases(6, h);
    }
    lemma_basic_div(INITIAL_REWARD as int, pow2(h) as int);
}

/// The total of all rewards ever issued stays below a fixed bound: heights
/// past the sixth halving earn nothing.
pub proof fn lemma_sum_rewards_bounded(n: nat)
    ensures
        n <= 6 * HALVING_INTERVAL ==> sum_rewards(n) <= INITIAL_REWARD * n,
        sum_rewards(n) <= INITIAL_REWARD * 6 * HALVING_INTERVAL,
    decreases n,
{
    if n > 0 {
        lemma_sum_rewards_bounded((n - 1) as nat);
        lemma_reward_le_initial((n - 1) as nat);
        if n > 6 * HALVING_INTERVAL {
            lemma_reward_zero_after((n - 1) as nat);
        }
    }
}

/// Clamp a retargeted value into the difficulty domain, with 1 as the floor.
pub open spec fn clamped_difficulty(v: int) -> u32 {
    if v < 1 {
        1u32
    } else if v > u32::MAX as int {
        u32::MAX
    } else {
        v as u32
    }
}

/// The retarget rule: scale the old difficulty by the ratio of the expected
/// window span to the observed one, the multiplier clamped into
/// [1/4, 4], the quotient rounded half-up, the result floored at 1. A span
/// of zero counts as maximally fast.
pub open spec fn retargeted_difficulty(old_difficulty: u32, span_ms: u64) -> u32 {
    let e = EXPECTED_RETARGET_SPAN_MS as int;
    let t = span_ms as int;
    let d = old_difficulty as int;
    if t == 0 || e > 4 * t {
        clamped_difficulty(4 * d)
    } else if 4 * e < t {
        clamped_difficulty((d + 2) / 4)
    } else {
        clamped_difficulty((2 * d * e + t) / (2 * t))
    }
}

/// Milliseconds spanned by the last full retarget window, zero when the
/// tip's timestamp does not exceed the window's first timestamp.
pub open spec fn retarget_span_ms(blocks: Seq<Block>) -> u64
    recommends
        blocks.len() >= DIFFICULTY_ADJUSTMENT_INTERVAL,
{
    let tip = blocks.last();
    let anchor = blocks[blocks.len() - DIFFICULTY_ADJUSTMENT_INTERVAL as int];
    if tip.timestamp >= anchor.timestamp {
        (tip.timestamp - anchor.timestamp) as u64
    } else {
        0u64
    }
}

/// The difficulty the next block is mined at: the tip's difficulty while the
/// chain is shorter than the retarget interval, else the retarget rule over
/// the last window's span.
pub open spec fn adjusted_difficulty(blocks: Seq<Block>) -> u32
    recommends
        blocks.len() >= 1,
{
    if blocks.len() < DIFFICULTY_ADJUSTMENT_INTERVAL {
        blocks.last().difficulty
    } else {
        retargeted_difficulty(blocks.last().difficulty, retarget_span_ms(blocks))
    }
}

/// A mined block at rest: its stored hash is its header digest, meets its
/// own difficulty, and its Merkle root commits to its transactions, the
/// coinbase first.
pub open spec fn block_sealed(b: Block) -> bool {
    &&& b.hash@ == block_hash_with_nonce(b, b.nonce)
    &&& count_leading_zeros(b.hash@) >= b.difficulty
    &&& b.merkle_root@ == merkle_root_of(tx_ids_of(b.transactions@))
    &&& b.transactions@.len() >= 1
    &&& b.transactions@[0].from@ == "coinbase"@
}

/// The chain invariant: non-empty, sealed blocks, indices dense, each block
/// linked to its predecessor's hash (the genesis to the all-zero digest),
/// and the total supply equal to the rewards issued so far.
pub open spec fn chain_wf(c: Blockchain) -> bool {
    &&& c.blocks@.len() >= 1
    &&& c.total_supply == sum_rewards(c.blocks@.len() as nat)
    &&& (forall|i: int| #![trigger c.blocks@[i]] 0 <= i < c.blocks@.len() ==> block_sealed(
        c.blocks@[i],
    ))
    &&& (forall|i: int| #![trigger c.blocks@[i]] 0 <= i < c.blocks@.len() ==> c.blocks@[i].index
        == i)
    &&& c.blocks@[0].previous_hash@ == zeros64()
    &&& (forall|i: int| #![trigger c.blocks@[i]] 1 <= i < c.blocks@.len() ==> c.blocks@[
        i
    ].previous_hash@ == c.blocks@[i - 1].hash@)
}

/// The ledger: accepted blocks, transactions awaiting inclusion, the
/// address rewards are paid to, and the supply issued so far.
#[derive(Debug)]
pub struct Blockchain {
    pub blocks: Vec<Block>,
    pub pending_transactions: Vec<Transaction>,
    pub miner_address: String,
    pub total_supply: u64,
}

impl Blockchain {
    /// Mines the genesis block at the given difficulty and starts the chain
    /// with it. Fails only as the mining search does.
    pub fn new(
        miner_address: String,
        initial_difficulty: u32,
        cancel: &AtomicBool,
        attempts: &AtomicU64,
    ) -> (r: Result<Blockchain, MiningError>)
        ensures
            r matches Ok(c) ==> {
                &&& chain_wf(c)
                &&& c.blocks@.len() == 1
                &&& c.blocks@[0].difficulty == initial_difficulty
                &&& c.blocks@[0].transactions@.len() == 1
                &&& c.miner_address@ == miner_address@
                &&& c.pending_transactions@.len() == 0
                &&& c.total_supply == reward_of(0)
            },
    {
        let mut chain = Blockchain {
            blocks: Vec::new(),
            pending_transactions: Vec::new(),
            miner_address,
            total_supply: 0,
        };
        let reward = chain.get_reward(0);
        let coinbase_tx = Transaction::coinbase(chain.miner_address.clone(), reward);
        let mut genesis_txs: Vec<Transaction> = Vec::new();
        genesis_txs.push(coinbase_tx);
        let mut genesis = Block::new(0, zeros_string(), initial_difficulty, genesis_txs);
        match mine_block(&mut genesis, initial_difficulty, cancel, attempts) {
            Ok(()) => {
                chain.total_supply = reward;
                chain.blocks.push(genesis);
                proof {
                    lemma2_to64();
                    vstd::arithmetic::div_mod::lemma_div_basics(INITIAL_REWARD as int);
                    assert(reward_of(0) == INITIAL_REWARD);
                    assert(chain.blocks@[0] == genesis);
                    assert(block_sealed(genesis));
                    assert(sum_rewards(1) == sum_rewards(0) + reward_of(0));
                    assert(chain_wf(chain));
                }
                Ok(chain)
            },
            Err(e) => Err(e),
        }
    }

    /// The reward at a block height: the initial reward halved once per
    /// elapsed halving interval, rounding down to zero eventually.
    pub fn get_reward(&self, block_index: u64) -> (r: u64)
        ensures
            r == reward_of(block_index as nat),
    {
        let halvings = block_index / HALVING_INTERVAL;
        let mut reward = INITIAL_REWARD;
        let mut k: u64 = 0;
        proof {
            lemma2_to64();
        }
        while k < halvings && reward > 0
            invariant
                k <= halvings,
                halvings == block_index / HALVING_INTERVAL,
                reward == (INITIAL_REWARD as nat) / pow2(k as nat),
            decreases halvings - k,
        {
            proof {
                lemma_pow2_pos(k as nat);
                lemma_pow2_adds(k as nat, 1);
                lemma2_to64();
                lemma_div_denominator(INITIAL_REWARD as int, pow2(k as nat) as int, 2);
            }
            reward = reward / 2;
            k = k + 1;
        }
        proof {
            if reward == 0 && k < halvings {
                lemma_pow2_strictly_increases(k as nat, halvings as nat);
                lemma_pow2_pos(k as nat);
                lemma_div_is_ordered_by_denominator(
                    INITIAL_REWARD as int,
                    pow2(k as nat) as int,
                    pow2(halvings as nat) as int,
                );
            }
            assert((block_index as nat) / (HALVING_INTERVAL as nat) == halvings as nat);
        }
        reward
    }

    /// The difficulty the next block will be mined at (the retarget rule
    /// over the last window, or the tip's difficulty while the chain is
    /// short).
    pub fn adjust_difficulty(&self) -> (d: u32)
        requires
            self.blocks@.len() >= 1,
        ensures
            d == adjusted_difficulty(self.blocks@),
    {
        let n = self.blocks.len();
        if (n as u64) < DIFFICULTY_ADJUSTMENT_INTERVAL {
            return self.blocks[n - 1].difficulty;
        }
        let anchor = &self.blocks[n - DIFFICULTY_ADJUSTMENT_INTERVAL as usize];
        let tip = &self.blocks[n - 1];
        let span: u64 = if tip.timestamp >= anchor.timestamp {
            tip.timestamp - anchor.timestamp
        } else {
            0
        };
        Self::retarget(tip.difficulty, span)
    }

    /// Drains the pending transactions behind a fresh coinbase paying the
    /// height's reward, assembles a candidate block on the tip, mines it at
    /// the retargeted difficulty, and on success appends it and issues the
    /// reward. On failure the blocks and the supply are unchanged; the
    /// drained transactions stay discarded either way.
    pub fn mine_and_add_block(
        &mut self,
        cancel: &AtomicBool,
        attempts: &AtomicU64,
    ) -> (r: Result<(), MiningError>)
        requires
            old(self).blocks@.len() >= 1,
            old(self).total_supply == sum_rewards(old(self).blocks@.len() as nat),
        ensures
            final(self).miner_address@ == old(self).miner_address@,
            final(self).pending_transactions@.len() == 0,
            final(self).total_supply == sum_rewards(final(self).blocks@.len() as nat),
            chain_wf(*old(self)) ==> chain_wf(*final(self)),
            r is Ok ==> {
                &&& final(self).blocks@.len() == old(self).blocks@.len() + 1
                &&& final(self).blocks@.subrange(0, old(self).blocks@.len() as int) == old(
                    self,
                ).blocks@
                &&& ({
                    let b = final(self).blocks@.last();
                    &&& b.index == old(self).blocks@.len()
                    &&& b.previous_hash@ == old(self).blocks@.last().hash@
                    &&& b.difficulty == adjusted_difficulty(old(self).blocks@)
                    &&& b.hash@ == block_hash_with_nonce(b, b.nonce)
                    &&& count_leading_zeros(b.hash@) >= b.difficulty
                    &&& b.merkle_root@ == merkle_root_of(tx_ids_of(b.transactions@))
                    &&& b.transactions@.len() == old(self).pending_transactions@.len() + 1
                    &&& b.transactions@[0].from@ == "coinbase"@
                    &&& b.transactions@[0].amount == reward_of(old(self).blocks@.len() as nat)
                    &&& b.transactions@.skip(1) == old(self).pending_transactions@
                })
                &&& final(self).total_supply == old(self).total_supply + reward_of(
                    old(self).blocks@.len() as nat,
                )
            },
            r is Err ==> {
                &&& final(self).blocks@ == old(self).blocks@
                &&& final(self).total_supply == old(self).total_supply
            },
    {
        let next_index = self.blocks.len();
        let reward = self.get_reward(next_index as u64);
        let mut transactions: Vec<Transaction> = Vec::new();
        std::mem::swap(&mut transactions, &mut self.pending_transactions);
        let coinbase_tx = Transaction::coinbase(self.miner_address.clone(), reward);
        transactions.insert(0, coinbase_tx);
        proof {
            assert(transactions@.skip(1) =~= old(self).pending_transactions@);
        }
        let difficulty = self.adjust_difficulty();
        let previous_hash = self.blocks[next_index - 1].hash.clone();
        let mut new_block = Block::new(next_index as u64, previous_hash, difficulty, transactions);

        match mine_block(&mut new_block, difficulty, cancel, attempts) {
            Ok(()) => {
                proof {
                    lemma_sum_rewards_bounded(old(self).blocks@.len() as nat);
                    lemma_reward_le_initial(old(self).blocks@.len() as nat);
                }
                self.total_supply = self.total_supply + reward;
                self.blocks.push(new_block);
                proof {
                    let n = old(self).blocks@.len() as int;
                    assert(self.blocks@.subrange(0, n) =~= old(self).blocks@);
                    assert(self.blocks@.last() == new_block);
                    assert(block_sealed(new_block));
                    if chain_wf(*old(self)) {
                        assert forall|i: int| #![trigger self.blocks@[i]]
                            0 <= i < self.blocks@.len() implies block_sealed(self.blocks@[i])
                            && self.blocks@[i].index == i by {
                            if i < n {
                                assert(self.blocks@[i] == old(self).blocks@[i]);
                            } else {
                                assert(self.blocks@[i] == new_block);
                            }
                        }
                        assert forall|i: int| #![trigger self.blocks@[i]]
                            1 <= i < self.blocks@.len() implies self.blocks@[i].previous_hash@
                            == self.blocks@[i - 1].hash@ by {
                            if i < n {
                                assert(self.blocks@[i] == old(self).blocks@[i]);
                                assert(self.blocks@[i - 1] == old(self).blocks@[i - 1]);
                            } else {
                                assert(self.blocks@[i] == new_block);
                                assert(self.blocks@[i - 1] == old(self).blocks@[n - 1]);
                            }
                        }
                        assert(chain_wf(*self));
                    }
                }
                Ok(())
            },
            Err(e) => Err(e),
        }
    }

    /// The retarget rule on plain values.
    fn retarget(old_difficulty: u32, span_ms: u64) -> (d: u32)
        ensures
            d == retargeted_difficulty(old_difficulty, span_ms),
    {
        let e: u64 = EXPECTED_RETARGET_SPAN_MS;
        let od: u64 = old_difficulty as u64;
        let raw: u64 = if span_ms == 0 || span_ms < e / 4 {
            4 * od
        } else if span_ms > 4 * e {
            (od + 2) / 4
        } else {
            proof {
                assert(od * e <= 0xffffffff * 100_000) by (nonlinear_arith)
                    requires
                        od <= 0xffffffffu64,
                        e == 100_000u64,
                ;
            }
            (2 * od * e + span_ms) / (2 * span_ms)
        };
        if raw < 1 {
            1
        } else if raw > u32::MAX as u64 {
            u32::MAX
        } else {
            raw as u32
        }
    }
}

/// The reward schedule: never increasing in the height, the full initial
/// reward at height zero, halved after one halving interval, quartered
/// after two.
pub proof fn lemma_reward_schedule(i: nat, j: nat)
    requires
        i <= j,
    ensures
        reward_of(j) <= reward_of(i),
        reward_of(0) == INITIAL_REWARD,
        reward_of(HALVING_INTERVAL as nat) == INITIAL_REWARD / 2,
        reward_of((2 * HALVING_INTERVAL) as nat) == INITIAL_REWARD / 4,
{
    lemma2_to64();
    vstd::arithmetic::div_mod::lemma_div_basics(INITIAL_REWARD as int);
    let hi = i / (HALVING_INTERVAL as nat);
    let hj = j / (HALVING_INTERVAL as nat);
    lemma_div_is_ordered(i as int, j as int, HALVING_INTERVAL as int);
    lemma_pow2_pos(hi);
    lemma_pow2_pos(hj);
    if hi < hj {
        lemma_pow2_strictly_increases(hi, hj);
    }
    lemma_div_is_ordered_by_denominator(INITIAL_REWARD as int, pow2(hi) as int, pow2(hj) as int);
    lemma_div_multiples_vanish(1, HALVING_INTERVAL as int);
    lemma_div_multiples_vanish(2, HALVING_INTERVAL as int);
    assert((HALVING_INTERVAL as nat) / (HALVING_INTERVAL as nat) == 1);
    assert(((2 * HALVING_INTERVAL) as nat) / (HALVING_INTERVAL as nat) == 2);
}

/// A retarget window faster than expected raises the difficulty strictly,
/// to at most four times the old value. Left out: an old difficulty of 0
/// (the floor of 1 exceeds 4×0) or already saturated at u32::MAX, and
/// windows so marginally fast that the half-up rounding keeps the quotient
/// at the old value (the last premise states exactly when it moves).
pub proof fn lemma_retarget_increases(old_difficulty: u32, span_ms: u64)
    requires
        span_ms < EXPECTED_RETARGET_SPAN_MS,
        1 <= old_difficulty < u32::MAX,
        2 * old_difficulty * (EXPECTED_RETARGET_SPAN_MS - span_ms) >= span_ms,
    ensures
        retargeted_difficulty(old_difficulty, span_ms) > old_difficulty,
        retargeted_difficulty(old_difficulty, span_ms) <= 4 * old_difficulty,
{
    let e = EXPECTED_RETARGET_SPAN_MS as int;
    let t = span_ms as int;
    let d = old_difficulty as int;
    if !(t == 0 || e > 4 * t) {
        let v = (2 * d * e + t) / (2 * t);
        assert(2 * d * e + t >= 2 * t * (d + 1)) by (nonlinear_arith)
            requires
                2 * d * (e - t) >= t,
                t >= 1,
                d >= 0,
        ;
        lemma_div_is_ordered(2 * t * (d + 1), 2 * d * e + t, 2 * t);
        lemma_div_multiples_vanish(d + 1, 2 * t);
        assert(v >= d + 1);
        assert(2 * d * e + t <= 2 * t * (4 * d) + t) by (nonlinear_arith)
            requires
                e <= 4 * t,
                d >= 0,
                t >= 1,
        ;
        lemma_div_multiples_vanish_fancy(4 * d, t, 2 * t);
        lemma_div_is_ordered(2 * d * e + t, 2 * t * (4 * d) + t, 2 * t);
        assert(v <= 4 * d);
    }
}

/// A retarget window slower than expected lowers the difficulty strictly,
/// to no less than a quarter of the old value (floored at 1). Left out: an
/// old difficulty below 2 (1 is already the floor), and windows so
/// marginally slow that the half-up rounding keeps the quotient at the old
/// value (the last premise states exactly when it moves).
pub proof fn lemma_retarget_decreases(old_difficulty: u32, span_ms: u64)
    requires
        span_ms > EXPECTED_RETARGET_SPAN_MS,
        old_difficulty >= 2,
        span_ms * (2 * old_difficulty - 1) > 2 * old_difficulty * EXPECTED_RETARGET_SPAN_MS,
    ensures
        retargeted_difficulty(old_difficulty, span_ms) < old_difficulty,
        retargeted_difficulty(old_difficulty, span_ms) >= old_difficulty / 4,
{
    let e = EXPECTED_RETARGET_SPAN_MS as int;
    let t = span_ms as int;
    let d = old_difficulty as int;
    let q = d / 4;
    lemma_fundamental_div_mod(d, 4);
    lemma_mod_division_less_than_divisor(d, 4);
    lemma_div_pos_is_pos(d, 4);
    assert(4 * q <= d);
    if 4 * e < t {
        let v = (d + 2) / 4;
        lemma_div_is_ordered(d + 2, 2 * d, 4);
        lemma_div_denominator(2 * d, 2, 2);
        lemma_div_multiples_vanish(d, 2);
        assert((2 * d) / 4 == d / 2);
        lemma_div_decreases(d, 2);
        assert(v < d);
        lemma_div_is_ordered(d, d + 2, 4);
        assert(v >= q);
        lemma_div_multiples_vanish(1, 4);
        lemma_div_is_ordered(4, d + 2, 4);
        assert(v >= 1);
    } else {
        let v = (2 * d * e + t) / (2 * t);
        assert(2 * d * e + t <= 2 * t * (d - 1) + (2 * t - 1)) by (nonlinear_arith)
            requires
                t * (2 * d - 1) > 2 * d * e,
                t >= 1,
                d >= 1,
        ;
        lemma_div_multiples_vanish_fancy(d - 1, 2 * t - 1, 2 * t);
        lemma_div_is_ordered(2 * d * e + t, 2 * t * (d - 1) + (2 * t - 1), 2 * t);
        assert(v <= d - 1);
        assert(2 * d * e + t >= 2 * t * q) by (nonlinear_arith)
            requires
                4 * e >= t,
                d >= 4 * q,
                t >= 1,
                q >= 0,
                e >= 1,
        ;
        lemma_div_is_ordered(2 * t * q, 2 * d * e + t, 2 * t);
        lemma_div_multiples_vanish(q, 2 * t);
        assert(v >= q);
    }
}

/// Over a chain whose last full retarget window spanned less time than
/// expected, the adjusted difficulty strictly exceeds the tip's, bounded by
/// four times it.
pub proof fn lemma_difficulty_increases(blocks: Seq<Block>)
    requires
        blocks.len() >= DIFFICULTY_ADJUSTMENT_INTERVAL,
        retarget_span_ms(blocks) < EXPECTED_RETARGET_SPAN_MS,
        1 <= blocks.last().difficulty < u32::MAX,
        2 * blocks.last().difficulty * (EXPECTED_RETARGET_SPAN_MS - retarget_span_ms(blocks))
            >= retarget_span_ms(blocks),
    ensures
        adjusted_difficulty(blocks) > blocks.last().difficulty,
        adjusted_difficulty(blocks) <= 4 * blocks.last().difficulty,
{
    lemma_retarget_increases(blocks.last().difficulty, retarget_span_ms(blocks));
}

/// Over a chain whose last full retarget window spanned more time than
/// expected, the adjusted difficulty falls strictly below the tip's,
/// bounded below by a quarter of it.
pub proof fn lemma_difficulty_decreases(blocks: Seq<Block>)
    requires
        blocks.len() >= DIFFICULTY_ADJUSTMENT_INTERVAL,
        retarget_span_ms(blocks) > EXPECTED_RETARGET_SPAN_MS,
        blocks.last().difficulty >= 2,
        retarget_span_ms(blocks) * (2 * blocks.last().difficulty - 1) > 2 * blocks.last().difficulty
            * EXPECTED_RETARGET_SPAN_MS,
    ensures
        adjusted_difficulty(blocks) < blocks.last().difficulty,
        adjusted_difficulty(blocks) >= blocks.last().difficulty / 4,
{
    lemma_retarget_decreases(blocks.last().difficulty, retarget_span_ms(blocks));
}

} // verus!
