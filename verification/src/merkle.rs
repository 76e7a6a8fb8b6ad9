//! The Merkle commitment: one root digest over an ordered list of
//! transaction identifiers.

use vstd::prelude::*;
use crate::hashing::{sha256_hex, sha256_hex_of, zeros64, zeros_string};
use crate::transaction::Transaction;

verus! {

/// The views of a list of digest strings.
pub open spec fn digests_of(v: Seq<String>) -> Seq<Seq<char>> {
    v.map_values(|s: String| s@)
}

/// Digest of a left/right pair of digests.
pub open spec fn merkle_pair(l: Seq<char>, r: Seq<char>) -> Seq<char> {
    sha256_hex_of(l + r)
}

/// One pairing round: adjacent digests left to right, an odd trailing
/// element paired with itself.
pub open spec fn merkle_level(s: Seq<Seq<char>>) -> Seq<Seq<char>>
    decreases s.len(),
{
    if s.len() == 0 {
        Seq::empty()
    } else if s.len() == 1 {
        seq![merkle_pair(s[0], s[0])]
    } else {
        seq![merkle_pair(s[0], s[1])] + merkle_level(s.skip(2))
    }
}

/// A pairing round halves the level, rounding up.
pub proof fn lemma_merkle_level_len(s: Seq<Seq<char>>)
    ensures
        merkle_level(s).len() == (s.len() + 1) / 2,
    decreases s.len(),
{
    if s.len() >= 2 {
        lemma_merkle_level_len(s.skip(2));
    }
}

#[via_fn]
proof fn merkle_root_of_decreases(s: Seq<Seq<char>>) {
    if s.len() >= 2 {
        lemma_merkle_level_len(s);
    }
}

/// The root over an ordered list of leaf digests: the all-zero digest for no
/// leaves, the leaf itself for one, otherwise pairing rounds until one
/// digest remains.
pub open spec fn merkle_root_of(s: Seq<Seq<char>>) -> Seq<char>
    decreases s.len()
    via merkle_root_of_decreases
{
    if s.len() == 0 {
        zeros64()
    } else if s.len() == 1 {
        s[0]
    } else {
        merkle_root_of(merkle_level(s))
    }
}

/// No leaves give the all-zero root; a single leaf is its own root, verbatim.
pub proof fn lemma_merkle_base_cases(leaf: Seq<char>)
    ensures
        merkle_root_of(Seq::<Seq<char>>::empty()) == zeros64(),
        merkle_root_of(seq![leaf]) == leaf,
{
}

/// The root is a function of the leaves alone: identical leaf lists give
/// identical roots.
pub proof fn lemma_merkle_deterministic(a: Seq<Seq<char>>, b: Seq<Seq<char>>)
    requires
        a == b,
    ensures
        merkle_root_of(a) == merkle_root_of(b),
{
}

/// For a single-leaf list, changing the leaf changes the root.
pub proof fn lemma_merkle_single_leaf_sensitive(a: Seq<char>, b: Seq<char>)
    requires
        a != b,
    ensures
        merkle_root_of(seq![a]) != merkle_root_of(seq![b]),
{
}

/// Builds the root digest over an ordered list of transaction identifiers.
pub struct MerkleTree {
    pub root: Option<String>,
    pub leaves: Vec<String>,
}

impl MerkleTree {
    /// Collects the transactions' identifiers as leaves, in order.
    pub fn new(transactions: &[Transaction]) -> (t: MerkleTree)
        ensures
            t.root is None,
            digests_of(t.leaves@) == transactions@.map_values(|tx: Transaction| tx.id@),
    {
        let mut leaves: Vec<String> = Vec::new();
        let n = transactions.len();
        let mut i: usize = 0;
        while i < n
            invariant
                i <= n,
                n == transactions@.len(),
                leaves@.len() == i,
                forall|j: int| 0 <= j < i ==> leaves@[j]@ == transactions@[j].id@,
            decreases n - i,
        {
            leaves.push(transactions[i].id.clone());
            i += 1;
        }
        proof {
            assert(digests_of(leaves@) =~= transactions@.map_values(|tx: Transaction| tx.id@));
        }
        MerkleTree { root: None, leaves }
    }

    /// Pairs adjacent digests, round after round, until one root remains.
    pub fn build_tree(&mut self) -> (root: String)
        ensures
            root@ == merkle_root_of(digests_of(old(self).leaves@)),
            final(self).leaves@ == old(self).leaves@,
            old(self).leaves@.len() >= 2 ==> (final(self).root matches Some(r) && r@ == root@),
            old(self).leaves@.len() < 2 ==> final(self).root == old(self).root,
    {
        if self.leaves.len() == 0 {
            return zeros_string();
        }
        if self.leaves.len() == 1 {
            return self.leaves[0].clone();
        }

        let mut current: Vec<String> = Vec::new();
        let n = self.leaves.len();
        let mut i: usize = 0;
        while i < n
            invariant
                i <= n,
                n == self.leaves@.len(),
                current@.len() == i,
                forall|j: int| 0 <= j < i ==> current@[j] == self.leaves@[j],
            decreases n - i,
        {
            current.push(self.leaves[i].clone());
            i += 1;
        }
        proof {
            assert(current@ =~= self.leaves@);
        }

        while current.len() > 1
            invariant
                current@.len() >= 1,
                merkle_root_of(digests_of(current@)) == merkle_root_of(digests_of(self.leaves@)),
            decreases current@.len(),
        {
            let len = current.len();
            let ghost prev = digests_of(current@);
            let mut next: Vec<String> = Vec::new();
            let mut i: usize = 0;
            proof {
                assert(prev.skip(0) =~= prev);
                assert(digests_of(next@) =~= Seq::<Seq<char>>::empty());
                assert(digests_of(next@) + merkle_level(prev) =~= merkle_level(prev));
            }
            while i < len
                invariant
                    len == current@.len(),
                    1 <= len,
                    i <= len,
                    i % 2 == 0 || i == len,
                    prev == digests_of(current@),
                    merkle_level(prev) == digests_of(next@) + merkle_level(prev.skip(i as int)),
                decreases len - i,
            {
                let left = current[i].clone();
                let mut record = left;
                let ghost pre = digests_of(next@);
                if i + 1 < len {
                    record.append(current[i + 1].as_str());
                    next.push(sha256_hex(record.as_str()));
                    proof {
                        assert(prev.skip(i as int).len() >= 2);
                        assert(prev.skip(i as int)[0] == prev[i as int]);
                        assert(prev.skip(i as int)[1] == prev[i as int + 1]);
                        assert(prev.skip(i as int).skip(2) =~= prev.skip(i as int + 2));
                        assert(digests_of(next@) =~= pre.push(
                            merkle_pair(prev[i as int], prev[i as int + 1]),
                        ));
                        assert(digests_of(next@) + merkle_level(prev.skip(i as int + 2)) =~= pre
                            + merkle_level(prev.skip(i as int)));
                    }
                    i += 2;
                } else {
                    record.append(current[i].as_str());
                    next.push(sha256_hex(record.as_str()));
                    proof {
                        assert(prev.skip(i as int).len() == 1);
                        assert(prev.skip(i as int)[0] == prev[i as int]);
                        assert(digests_of(next@) =~= pre.push(
                            merkle_pair(prev[i as int], prev[i as int]),
                        ));
                        assert(digests_of(next@) + merkle_level(prev.skip(i as int + 1)) =~= pre
                            + merkle_level(prev.skip(i as int)));
                    }
                    i += 1;
                }
            }
            proof {
                assert(prev.skip(len as int) =~= Seq::<Seq<char>>::empty());
                assert(merkle_level(prev) =~= digests_of(next@));
                lemma_merkle_level_len(prev);
            }
            current = next;
        }

        let root = current.remove(0);
        self.root = Some(root.clone());
        proof {
            assert(digests_of(old(self).leaves@) == digests_of(self.leaves@));
        }
        root
    }
}

} // verus!
