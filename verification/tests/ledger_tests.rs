use std::sync::atomic::{AtomicBool, AtomicU64};
use sha2::Digest;

use pow_ledger::block::Block;
use pow_ledger::chain::{
    Blockchain, DIFFICULTY_ADJUSTMENT_INTERVAL, HALVING_INTERVAL, INITIAL_REWARD,
};
use pow_ledger::merkle::MerkleTree;
use pow_ledger::mining::{mine_block, MiningError};
use pow_ledger::transaction::Transaction;

#[test]
fn test_transaction_hash() {
    let tx = Transaction::new("a".into(), "b".into(), 10, "s".into());
    assert!(!tx.id.is_empty());
}

#[test]
fn test_merkle_tree() {
    let txs = vec![
        Transaction::new("a".into(), "b".into(), 1, "s1".into()),
        Transaction::new("c".into(), "d".into(), 2, "s2".into()),
    ];
    let mut tree = MerkleTree::new(&txs);
    let root = tree.build_tree();
    assert!(!root.is_empty());
    assert_ne!(root, "0".repeat(64));
}

#[test]
fn test_mining_and_valid_proof() {
    let cancel = AtomicBool::new(false);
    let attempts = AtomicU64::new(0);
    let mut block = Block::new(1, "prev_hash".into(), 5, vec![]);
    assert!(mine_block(&mut block, 5, &cancel, &attempts).is_ok());
    assert!(block.hash.starts_with(&"0".repeat(5)));
}

#[test]
fn test_reward_halving() {
    let cancel = AtomicBool::new(false);
    let attempts = AtomicU64::new(0);
    let chain = Blockchain::new("test".into(), 1, &cancel, &attempts).unwrap();
    assert_eq!(chain.get_reward(0), INITIAL_REWARD);
    assert_eq!(chain.get_reward(HALVING_INTERVAL - 1), INITIAL_REWARD);
    assert_eq!(chain.get_reward(HALVING_INTERVAL), INITIAL_REWARD / 2);
    assert_eq!(chain.get_reward(HALVING_INTERVAL * 2), INITIAL_REWARD / 4);
}

#[test]
fn test_difficulty_adjustment_increase() {
    let cancel = AtomicBool::new(false);
    let attempts = AtomicU64::new(0);
    let mut chain = Blockchain::new("test".into(), 2, &cancel, &attempts).unwrap();
    let initial_difficulty = chain.blocks[0].difficulty;

    for i in 1..=DIFFICULTY_ADJUSTMENT_INTERVAL {
        let mut last_block = chain.blocks.last().unwrap().clone();
        last_block.index = i;
        last_block.timestamp = last_block.timestamp - 5000;
        chain.blocks.push(last_block);
    }

    let new_difficulty = chain.adjust_difficulty();
    assert!(new_difficulty > initial_difficulty, "Kesulitan seharusnya meningkat");
}

#[test]
fn test_difficulty_adjustment_decrease() {
    let cancel = AtomicBool::new(false);
    let attempts = AtomicU64::new(0);
    let mut chain = Blockchain::new("test".into(), 2, &cancel, &attempts).unwrap();
    let initial_difficulty = chain.blocks[0].difficulty;

    for i in 1..=DIFFICULTY_ADJUSTMENT_INTERVAL {
        let mut last_block = chain.blocks.last().unwrap().clone();
        last_block.index = i;
        last_block.timestamp = last_block.timestamp + 20000;
        chain.blocks.push(last_block);
    }

    let new_difficulty = chain.adjust_difficulty();
    assert!(new_difficulty < initial_difficulty, "Kesulitan seharusnya menurun");
}

fn sha256_hex_of_str(s: &str) -> String {
    format!("{:x}", sha2::Sha256::digest(s.as_bytes()))
}

#[test]
fn transaction_id_matches_sha256_of_record() {
    let tx = Transaction::new("alice".into(), "bob".into(), 42, "sig".into());
    let record = format!("{}{}{}{}{}", tx.from, tx.to, tx.amount, tx.timestamp, tx.signature);
    assert_eq!(tx.id, sha256_hex_of_str(&record));
    assert_eq!(tx.id, tx.calculate_hash());
}

#[test]
fn coinbase_transaction_fields() {
    let tx = Transaction::coinbase("miner".into(), 50);
    assert_eq!(tx.from, "coinbase");
    assert_eq!(tx.to, "miner");
    assert_eq!(tx.amount, 50);
    assert_eq!(tx.signature, "");
    assert_eq!(tx.id, tx.calculate_hash());
}

#[test]
fn merkle_root_of_no_leaves_is_all_zeros() {
    let mut tree = MerkleTree::new(&[]);
    assert_eq!(tree.build_tree(), "0".repeat(64));
}

#[test]
fn merkle_root_of_one_leaf_is_the_leaf() {
    let tx = Transaction::new("a".into(), "b".into(), 1, "s".into());
    let id = tx.id.clone();
    let mut tree = MerkleTree::new(&[tx]);
    assert_eq!(tree.build_tree(), id);
}

#[test]
fn merkle_root_of_two_leaves_pairs_them() {
    let t1 = Transaction::new("a".into(), "b".into(), 1, "s1".into());
    let t2 = Transaction::new("c".into(), "d".into(), 2, "s2".into());
    let expected = sha256_hex_of_str(&format!("{}{}", t1.id, t2.id));
    let mut tree = MerkleTree::new(&[t1, t2]);
    assert_eq!(tree.build_tree(), expected);
}

#[test]
fn merkle_root_of_three_leaves_duplicates_the_last() {
    let t1 = Transaction::new("a".into(), "b".into(), 1, "s1".into());
    let t2 = Transaction::new("c".into(), "d".into(), 2, "s2".into());
    let t3 = Transaction::new("e".into(), "f".into(), 3, "s3".into());
    let left = sha256_hex_of_str(&format!("{}{}", t1.id, t2.id));
    let right = sha256_hex_of_str(&format!("{}{}", t3.id, t3.id));
    let expected = sha256_hex_of_str(&format!("{}{}", left, right));
    let mut tree = MerkleTree::new(&[t1, t2, t3]);
    assert_eq!(tree.build_tree(), expected);
}

#[test]
fn merkle_root_is_deterministic_and_leaf_sensitive() {
    let t1 = Transaction::new("a".into(), "b".into(), 1, "s1".into());
    let t2 = Transaction::new("c".into(), "d".into(), 2, "s2".into());
    let t3 = Transaction::new("e".into(), "f".into(), 3, "s3".into());

    let mut first_tree = MerkleTree::new(&[t1.clone(), t2.clone()]);
    let first = first_tree.build_tree();
    let mut again_tree = MerkleTree::new(&[t1.clone(), t2.clone()]);
    assert_eq!(first, again_tree.build_tree());

    let mut changed_tree = MerkleTree::new(&[t1.clone(), t3.clone()]);
    assert_ne!(first, changed_tree.build_tree());

    let mut reordered_tree = MerkleTree::new(&[t2, t1]);
    assert_ne!(first, reordered_tree.build_tree());
}

#[test]
fn block_header_hash_matches_sha256_of_header_record() {
    let block = Block::new(7, "prev".into(), 3, vec![]);
    let record = format!(
        "{}{}{}{}{}{}",
        block.index, block.timestamp, block.previous_hash, block.merkle_root, block.nonce,
        block.difficulty
    );
    assert_eq!(block.calculate_hash(), sha256_hex_of_str(&record));
}

#[test]
fn new_block_has_empty_hash_and_zero_nonce() {
    let tx = Transaction::new("a".into(), "b".into(), 1, "s".into());
    let id = tx.id.clone();
    let block = Block::new(3, "prev".into(), 2, vec![tx]);
    assert_eq!(block.hash, "");
    assert_eq!(block.nonce, 0);
    assert_eq!(block.merkle_root, id);
}

#[test]
fn mining_with_difficulty_zero_succeeds_immediately() {
    let cancel = AtomicBool::new(false);
    let attempts = AtomicU64::new(0);
    let mut block = Block::new(1, "prev".into(), 0, vec![]);
    assert!(mine_block(&mut block, 0, &cancel, &attempts).is_ok());
    assert_eq!(block.hash, block.calculate_hash());
}

#[test]
fn mined_block_hash_meets_difficulty() {
    let cancel = AtomicBool::new(false);
    let attempts = AtomicU64::new(0);
    let mut block = Block::new(2, "prev".into(), 3, vec![]);
    assert!(mine_block(&mut block, 3, &cancel, &attempts).is_ok());
    assert!(block.hash.starts_with("000"));
    assert_eq!(block.hash, block.calculate_hash());
    assert!(attempts.load(std::sync::atomic::Ordering::SeqCst) > 0);
}

#[test]
fn cancelled_mining_returns_interrupted_and_leaves_chain_unchanged() {
    let cancel = AtomicBool::new(false);
    let attempts = AtomicU64::new(0);
    let mut chain = Blockchain::new("test".into(), 1, &cancel, &attempts).unwrap();
    chain.pending_transactions.push(Transaction::new("a".into(), "b".into(), 1, "s".into()));

    let blocks_before = chain.blocks.len();
    let supply_before = chain.total_supply;
    let interrupted = AtomicBool::new(true);
    let result = chain.mine_and_add_block(&interrupted, &attempts);

    assert!(matches!(result, Err(MiningError::Interrupted)));
    assert_eq!(chain.blocks.len(), blocks_before);
    assert_eq!(chain.total_supply, supply_before);
}

#[test]
fn reward_is_non_increasing_in_height() {
    let cancel = AtomicBool::new(false);
    let attempts = AtomicU64::new(0);
    let chain = Blockchain::new("test".into(), 1, &cancel, &attempts).unwrap();
    let mut previous = chain.get_reward(0);
    for i in 1..200 {
        let current = chain.get_reward(i);
        assert!(current <= previous);
        previous = current;
    }
    assert_eq!(chain.get_reward(HALVING_INTERVAL * 6), 0);
    assert_eq!(chain.get_reward(u64::MAX), 0);
}

#[test]
fn end_to_end_difficulty_five() {
    let cancel = AtomicBool::new(false);
    let attempts = AtomicU64::new(0);
    let mut chain = Blockchain::new("miner".into(), 5, &cancel, &attempts).unwrap();
    assert!(chain.blocks[0].hash.starts_with("00000"));

    let supply_before = chain.total_supply;
    chain.mine_and_add_block(&cancel, &attempts).unwrap();

    let block = chain.blocks.last().unwrap();
    assert!(block.hash.starts_with("00000"));
    assert_eq!(block.transactions.len(), 1);
    assert_eq!(chain.total_supply - supply_before, chain.get_reward(1));
}

#[test]
fn mined_chain_links_blocks_and_drains_pending() {
    let cancel = AtomicBool::new(false);
    let attempts = AtomicU64::new(0);
    let mut chain = Blockchain::new("miner".into(), 1, &cancel, &attempts).unwrap();
    chain.pending_transactions.push(Transaction::new("a".into(), "b".into(), 7, "s".into()));
    chain.pending_transactions.push(Transaction::new("c".into(), "d".into(), 8, "s".into()));

    chain.mine_and_add_block(&cancel, &attempts).unwrap();

    assert_eq!(chain.blocks.len(), 2);
    assert!(chain.pending_transactions.is_empty());
    let tip = &chain.blocks[1];
    assert_eq!(tip.index, 1);
    assert_eq!(tip.previous_hash, chain.blocks[0].hash);
    assert_eq!(tip.transactions.len(), 3);
    assert_eq!(tip.transactions[0].from, "coinbase");
    assert_eq!(tip.transactions[1].amount, 7);
    assert_eq!(tip.transactions[2].amount, 8);
    assert_eq!(chain.total_supply, 100);
}
