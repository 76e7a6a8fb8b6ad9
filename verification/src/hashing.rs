//! Digests over the ledger's records.
//!
//! A record is the order-sensitive concatenation of a value's fields, numbers
//! rendered in decimal; its digest is the lowercase-hex SHA-256 of that text.

use vstd::prelude::*;
use sha2::Digest;

verus! {

/// The lowercase-hex SHA-256 digest of a sequence of characters.
pub uninterp spec fn sha256_hex_of(s: Seq<char>) -> Seq<char>;

/// Relies on sha2::Sha256 and the lowercase-hex rendering of its 32-byte
/// digest: the result is a function of the input characters alone and is
/// 64 characters long (two hex digits per byte).
#[verifier::external_body]
pub(crate) fn sha256_hex(s: &str) -> (r: String)
    ensures
        r@ == sha256_hex_of(s@),
        r@.len() == 64,
{
    let mut hasher = sha2::Sha256::new();
    hasher.update(s.as_bytes());
    format!("{:x}", hasher.finalize())
}

/// The character for one decimal digit.
pub open spec fn dec_digit(d: nat) -> char {
    if d == 0 {
        '0'
    } else if d == 1 {
        '1'
    } else if d == 2 {
        '2'
    } else if d == 3 {
        '3'
    } else if d == 4 {
        '4'
    } else if d == 5 {
        '5'
    } else if d == 6 {
        '6'
    } else if d == 7 {
        '7'
    } else if d == 8 {
        '8'
    } else {
        '9'
    }
}

/// The decimal rendering of a number, most significant digit first.
pub open spec fn dec_str(n: nat) -> Seq<char>
    decreases n,
{
    if n < 10 {
        seq![dec_digit(n)]
    } else {
        dec_str(n / 10).push(dec_digit(n % 10))
    }
}

fn digit_str(d: u64) -> (r: &'static str)
    requires
        d < 10,
    ensures
        r@ == seq![dec_digit(d as nat)],
{
    let r: &'static str = if d == 0 {
        "0"
    } else if d == 1 {
        "1"
    } else if d == 2 {
        "2"
    } else if d == 3 {
        "3"
    } else if d == 4 {
        "4"
    } else if d == 5 {
        "5"
    } else if d == 6 {
        "6"
    } else if d == 7 {
        "7"
    } else if d == 8 {
        "8"
    } else {
        "9"
    };
    proof {
        reveal_strlit("0");
        reveal_strlit("1");
        reveal_strlit("2");
        reveal_strlit("3");
        reveal_strlit("4");
        reveal_strlit("5");
        reveal_strlit("6");
        reveal_strlit("7");
        reveal_strlit("8");
        reveal_strlit("9");
        assert(r@ =~= seq![dec_digit(d as nat)]);
    }
    r
}

/// Renders a number in decimal, as the record concatenation does.
pub fn u64_to_dec_string(n: u64) -> (s: String)
    ensures
        s@ == dec_str(n as nat),
    decreases n,
{
    if n < 10 {
        String::from_str(digit_str(n))
    } else {
        let mut s = u64_to_dec_string(n / 10);
        let d = digit_str(n % 10);
        s.append(d);
        proof {
            assert(s@ =~= dec_str(n as nat));
        }
        s
    }
}

/// The record a transaction's identifier is the digest of.
pub open spec fn tx_record_of(
    from: Seq<char>,
    to: Seq<char>,
    amount: u64,
    timestamp: u64,
    signature: Seq<char>,
) -> Seq<char> {
    from + to + dec_str(amount as nat) + dec_str(timestamp as nat) + signature
}

/// A transaction's identifier: the digest of its record.
pub open spec fn tx_id_of(
    from: Seq<char>,
    to: Seq<char>,
    amount: u64,
    timestamp: u64,
    signature: Seq<char>,
) -> Seq<char> {
    sha256_hex_of(tx_record_of(from, to, amount, timestamp, signature))
}

/// Digest of a transaction's fields.
pub fn transaction_digest(
    from: &str,
    to: &str,
    amount: u64,
    timestamp: u64,
    signature: &str,
) -> (r: String)
    ensures
        r@ == tx_id_of(from@, to@, amount, timestamp, signature@),
{
    let mut record = String::new();
    record.append(from);
    record.append(to);
    let a = u64_to_dec_string(amount);
    record.append(a.as_str());
    let t = u64_to_dec_string(timestamp);
    record.append(t.as_str());
    record.append(signature);
    proof {
        assert(record@ =~= tx_record_of(from@, to@, amount, timestamp, signature@));
    }
    sha256_hex(record.as_str())
}

/// The record a block header's hash is the digest of.
pub open spec fn header_record_of(
    index: u64,
    timestamp: u64,
    previous_hash: Seq<char>,
    merkle_root: Seq<char>,
    nonce: u64,
    difficulty: u32,
) -> Seq<char> {
    dec_str(index as nat) + dec_str(timestamp as nat) + previous_hash + merkle_root
        + dec_str(nonce as nat) + dec_str(difficulty as nat)
}

/// A block header's hash: the digest of its record.
pub open spec fn header_hash_of(
    index: u64,
    timestamp: u64,
    previous_hash: Seq<char>,
    merkle_root: Seq<char>,
    nonce: u64,
    difficulty: u32,
) -> Seq<char> {
    sha256_hex_of(header_record_of(index, timestamp, previous_hash, merkle_root, nonce, difficulty))
}

/// Digest of a block header's fields.
pub fn header_digest(
    index: u64,
    timestamp: u64,
    previous_hash: &str,
    merkle_root: &str,
    nonce: u64,
    difficulty: u32,
) -> (r: String)
    ensures
        r@ == header_hash_of(index, timestamp, previous_hash@, merkle_root@, nonce, difficulty),
{
    let mut record = u64_to_dec_string(index);
    let t = u64_to_dec_string(timestamp);
    record.append(t.as_str());
    record.append(previous_hash);
    record.append(merkle_root);
    let n = u64_to_dec_string(nonce);
    record.append(n.as_str());
    let d = u64_to_dec_string(difficulty as u64);
    record.append(d.as_str());
    proof {
        assert(record@ =~= header_record_of(
            index,
            timestamp,
            previous_hash@,
            merkle_root@,
            nonce,
            difficulty,
        ));
    }
    sha256_hex(record.as_str())
}

/// The all-zero digest: 64 `'0'` characters.
pub open spec fn zeros64() -> Seq<char> {
    Seq::new(64, |i: int| '0')
}

/// Builds the all-zero digest.
pub fn zeros_string() -> (s: String)
    ensures
        s@ == zeros64(),
{
    let mut s = String::new();
    let mut i: usize = 0;
    while i < 64
        invariant
            i <= 64,
            s@ == Seq::new(i as nat, |j: int| '0'),
        decreases 64 - i,
    {
        s.append("0");
        i += 1;
        proof {
            reveal_strlit("0");
            assert(s@ =~= Seq::new(i as nat, |j: int| '0'));
        }
    }
    proof {
        assert(s@ =~= zeros64());
    }
    s
}

} // verus!
