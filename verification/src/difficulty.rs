//! The difficulty target: a digest meets difficulty `d` when it starts with
//! at least `d` zero characters.

use vstd::prelude::*;

verus! {

/// Number of leading `'0'` characters of a digest.
pub open spec fn count_leading_zeros(s: Seq<char>) -> nat
    decreases s.len(),
{
    if s.len() == 0 {
        0
    } else if s[0] != '0' {
        0
    } else {
        1 + count_leading_zeros(s.skip(1))
    }
}

/// A digest never has more leading zeros than characters.
pub proof fn lemma_clz_le_len(s: Seq<char>)
    ensures
        count_leading_zeros(s) <= s.len(),
    decreases s.len(),
{
    if s.len() > 0 && s[0] == '0' {
        lemma_clz_le_len(s.skip(1));
    }
}

/// If the first `k` characters are all `'0'`, at least `k` zeros lead.
proof fn lemma_clz_at_least(s: Seq<char>, k: int)
    requires
        0 <= k <= s.len(),
        forall|j: int| 0 <= j < k ==> s[j] == '0',
    ensures
        count_leading_zeros(s) >= k,
    decreases k,
{
    if k > 0 {
        lemma_clz_at_least(s.skip(1), k - 1);
    }
}

/// If the first `k` characters are `'0'` and the next one is not, exactly `k` zeros lead.
proof fn lemma_clz_exact(s: Seq<char>, k: int)
    requires
        0 <= k < s.len(),
        forall|j: int| 0 <= j < k ==> s[j] == '0',
        s[k] != '0',
    ensures
        count_leading_zeros(s) == k,
    decreases k,
{
    if k > 0 {
        lemma_clz_exact(s.skip(1), k - 1);
    }
}

/// Whether `hash` has at least `difficulty` leading `'0'` characters.
pub fn meets_difficulty(hash: &str, difficulty: u32) -> (b: bool)
    ensures
        b == (count_leading_zeros(hash@) >= difficulty),
{
    let len = hash.unicode_len();
    let mut i: u32 = 0;
    while i < difficulty
        invariant
            0 <= i <= difficulty,
            i <= hash@.len(),
            len == hash@.len(),
            forall|j: int| 0 <= j < i ==> hash@[j] == '0',
        decreases difficulty as int - i,
    {
        if i as usize >= len {
            proof {
                lemma_clz_le_len(hash@);
            }
            return false;
        }
        let c = hash.get_char(i as usize);
        if c != '0' {
            proof {
                lemma_clz_exact(hash@, i as int);
            }
            return false;
        }
        i += 1;
    }
    proof {
        lemma_clz_at_least(hash@, i as int);
    }
    true
}

} // verus!
