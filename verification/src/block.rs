//! Ledger entries and the proof-of-work miner that produces them.

use crate::blockchain::{adjusted_difficulty, Blockchain};
use crate::encoding::{dec_int_chars, dec_nat_chars, i64_to_string, usize_to_string};
use crate::hashing::{gen_hash, hash_chars};
use crate::utils::time_now;
use vstd::prelude::*;
use vstd::string::StringExecFns;

verus! {

/// One ledger entry. `hash` is a pure function of the other five fields and
/// of nothing else; `prev_hash` links the entry to its predecessor.
pub struct Block {
    pub timestamp: i64,
    pub data: String,
    pub hash: String,
    pub prev_hash: String,
    pub difficulty: usize,
    pub nonce: usize,
}

impl Clone for Block {
    fn clone(&self) -> (r: Block)
        ensures
            r == *self,
    {
        Block {
            timestamp: self.timestamp,
            data: self.data.clone(),
            hash: self.hash.clone(),
            prev_hash: self.prev_hash.clone(),
            difficulty: self.difficulty,
            nonce: self.nonce,
        }
    }
}

/// The ordered parts whose concatenation a block's hash commits to.
pub open spec fn block_hash_parts(
    timestamp: i64,
    data: Seq<char>,
    prev_hash: Seq<char>,
    difficulty: usize,
    nonce: usize,
) -> Seq<Seq<char>> {
    seq![
        dec_int_chars(timestamp as int),
        data,
        prev_hash,
        dec_nat_chars(difficulty as nat),
        dec_nat_chars(nonce as nat),
    ]
}

/// The hash string a block with these fields must carry.
pub open spec fn block_hash(
    timestamp: i64,
    data: Seq<char>,
    prev_hash: Seq<char>,
    difficulty: usize,
    nonce: usize,
) -> Seq<char> {
    hash_chars(block_hash_parts(timestamp, data, prev_hash, difficulty, nonce))
}

/// The canonical sentinel values of the first entry of every valid chain.
pub open spec fn is_genesis(b: Block) -> bool {
    &&& b.timestamp == 0
    &&& b.data@ == "empty_data"@
    &&& b.hash@ == "empty_hash"@
    &&& b.prev_hash@ == "empty_previous_hash"@
    &&& b.difficulty == 3
    &&& b.nonce == 0
}

/// The first `d` characters of `h` are all `'0'`.
pub open spec fn zero_prefix(h: Seq<char>, d: int) -> bool {
    forall|i: int| 0 <= i < d ==> h[i] == '0'
}

/// A difference saturated to the `i64` range.
pub open spec fn sat_i64(x: int) -> int {
    if x > i64::MAX {
        i64::MAX as int
    } else if x < i64::MIN {
        i64::MIN as int
    } else {
        x
    }
}

/// What the miner guarantees of a block it emits on top of `prev` for
/// payload `data`: the payload and the link are stored as given, the hash
/// recomputes from the stored fields, it clears the stored difficulty, and
/// that difficulty is the one the adjustment rule gives for the winning
/// attempt's own timestamp (re-sampled every attempt, not fixed at the
/// start of the search).
pub open spec fn mined_on(b: Block, prev: Block, data: Seq<char>) -> bool {
    &&& b.data@ == data
    &&& b.prev_hash@ == prev.hash@
    &&& b.hash@ == block_hash(b.timestamp, b.data@, prev.hash@, b.difficulty, b.nonce)
    &&& b.hash@.len() == 256
    &&& b.difficulty <= 256
    &&& b.difficulty as int == adjusted_difficulty(
        prev.difficulty as int,
        sat_i64(b.timestamp - prev.timestamp),
    )
    &&& zero_prefix(b.hash@, b.difficulty as int)
}

/// Whether the first `d` characters of `h` are all `'0'`.
pub fn has_zero_prefix(h: &str, d: usize) -> (r: bool)
    requires
        d <= h@.len(),
    ensures
        r == zero_prefix(h@, d as int),
{
    let mut i: usize = 0;
    while i < d
        invariant
            i <= d <= h@.len(),
            forall|k: int| 0 <= k < i ==> h@[k] == '0',
        decreases d - i,
    {
        if h.get_char(i) != '0' {
            return false;
        }
        i = i + 1;
    }
    true
}

/// The difference `now - prev_ts`, saturated to the `i64` range.
fn elapsed_since(now: i64, prev_ts: i64) -> (r: i64)
    ensures
        r as int == sat_i64(now - prev_ts),
{
    let d: i128 = now as i128 - prev_ts as i128;
    if d > i64::MAX as i128 {
        i64::MAX
    } else if d < i64::MIN as i128 {
        i64::MIN
    } else {
        d as i64
    }
}

impl Block {
    /// Mines a block on top of `prev_block` for the payload `data`.
    ///
    /// Each attempt re-samples the clock, recomputes the difficulty from the
    /// elapsed time since `prev_block`, hashes the candidate fields, and
    /// accepts when the hash starts with `difficulty` `'0'` characters;
    /// otherwise the nonce is incremented and the search goes on. The search
    /// gives up only if every nonce value is exhausted.
    pub fn new_with_previous(data: &str, prev_block: &Block) -> (r: Option<Block>)
        requires
            prev_block.difficulty <= 255,
        ensures
            r matches Some(b) ==> mined_on(b, *prev_block, data@),
    {
        let mut nonce: usize = 0;
        loop
            invariant
                prev_block.difficulty <= 255,
            decreases usize::MAX - nonce,
        {
            let date_now = time_now();
            let elapsed = elapsed_since(date_now, prev_block.timestamp);
            let difficulty = Blockchain::optimize_difficulty(prev_block, elapsed);
            let mut parts: Vec<String> = Vec::new();
            parts.push(i64_to_string(date_now));
            parts.push(String::from_str(data));
            parts.push(prev_block.hash.clone());
            parts.push(usize_to_string(difficulty));
            parts.push(usize_to_string(nonce));
            proof {
                assert(parts.deep_view() =~= block_hash_parts(
                    date_now,
                    data@,
                    prev_block.hash@,
                    difficulty,
                    nonce,
                ));
            }
            let hash = gen_hash(parts);
            if has_zero_prefix(hash.as_str(), difficulty) {
                return Some(
                    Block {
                        timestamp: date_now,
                        data: String::from_str(data),
                        hash,
                        prev_hash: prev_block.hash.clone(),
                        difficulty,
                        nonce,
                    },
                );
            }
            if nonce == usize::MAX {
                return None;
            }
            nonce = nonce + 1;
        }
    }

    /// The canonical genesis block: a hardcoded constant, never produced by
    /// the miner.
    pub fn get_first_block() -> (r: Block)
        ensures
            is_genesis(r),
    {
        Block {
            timestamp: 0,
            data: String::from_str("empty_data"),
            hash: String::from_str("empty_hash"),
            prev_hash: String::from_str("empty_previous_hash"),
            difficulty: 3,
            nonce: 0,
        }
    }
}

} // verus!
