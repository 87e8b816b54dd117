//! The chain: validation, the longest-valid-chain replacement rule, and the
//! one-step difficulty controller.

use crate::block::{
    block_hash, block_hash_parts, has_zero_prefix, is_genesis, mined_on, Block,
};
use crate::hashing::gen_hash;
use vstd::prelude::*;

verus! {

/// The target mining speed: an elapsed time above this eases the puzzle, one
/// at or below it hardens the puzzle.
pub const MINING_SPEED: usize = 1000;

/// `b` correctly extends `prev`: the link field carries `prev`'s hash and
/// `b`'s stored hash recomputes from its own fields and that link.
pub open spec fn links(prev: Block, b: Block) -> bool {
    &&& b.prev_hash@ == prev.hash@
    &&& b.hash@ == block_hash(b.timestamp, b.data@, prev.hash@, b.difficulty, b.nonce)
}

/// A structurally and cryptographically valid chain: it starts with the
/// canonical genesis block and every later entry correctly extends its
/// predecessor.
pub open spec fn chain_valid(s: Seq<Block>) -> bool {
    &&& s.len() > 0
    &&& is_genesis(s[0])
    &&& forall|i: int| 1 <= i < s.len() ==> #[trigger] links(s[i - 1], s[i])
}

/// The one-step difficulty controller: a difficulty below 1 is clamped to 1;
/// otherwise the difficulty falls by one when mining ran over the target
/// speed (or the elapsed time is not meaningful, i.e. negative) and rises by
/// one when mining beat it.
pub open spec fn adjusted_difficulty(d: int, elapsed: int) -> int {
    if d < 1 {
        1
    } else if elapsed < 0 || elapsed > MINING_SPEED as int {
        d - 1
    } else {
        d + 1
    }
}

/// The adjusted difficulty stays at least 1 except in the single case of
/// difficulty exactly 1 combined with over-target (or negative) elapsed
/// time, where it reaches 0 for one step.
pub proof fn lemma_difficulty_floor(d: int, elapsed: int)
    requires
        d != 1 || (0 <= elapsed <= MINING_SPEED as int),
    ensures
        adjusted_difficulty(d, elapsed) >= 1,
{
}

/// The adjusted difficulty never goes negative, and a difficulty that did
/// reach 0 is clamped back to 1 on the next step.
pub proof fn lemma_difficulty_recovers(d: int, elapsed: int)
    requires
        d >= 0,
    ensures
        adjusted_difficulty(d, elapsed) >= 0,
        d == 0 ==> adjusted_difficulty(d, elapsed) == 1,
{
}

/// Appending a block that correctly extends the last entry keeps the chain
/// valid.
pub proof fn lemma_chain_push(s: Seq<Block>, b: Block)
    requires
        chain_valid(s),
        links(s.last(), b),
    ensures
        chain_valid(s.push(b)),
{
    let t = s.push(b);
    assert(t[0] == s[0]);
    assert forall|i: int| 1 <= i < t.len() implies #[trigger] links(t[i - 1], t[i]) by {
        if i < s.len() {
            assert(links(s[i - 1], s[i]));
            assert(t[i - 1] == s[i - 1] && t[i] == s[i]);
        } else {
            assert(t[i] == b && t[i - 1] == s.last());
        }
    }
}

/// A one-entry chain holding the genesis block is valid.
pub proof fn lemma_genesis_chain_valid(s: Seq<Block>)
    requires
        s.len() == 1,
        is_genesis(s[0]),
    ensures
        chain_valid(s),
{
}

/// Replacing the `prev_hash` of any non-genesis entry of a valid chain with
/// a different value makes the chain invalid.
pub proof fn lemma_tampered_prev_hash_invalidates(s: Seq<Block>, i: int, b: Block)
    requires
        chain_valid(s),
        1 <= i < s.len(),
        b.prev_hash@ != s[i].prev_hash@,
    ensures
        !chain_valid(s.update(i, b)),
{
    let t = s.update(i, b);
    assert(links(s[i - 1], s[i]));
    assert(t[i - 1] == s[i - 1]);
    assert(t[i] == b);
    assert(!links(t[i - 1], t[i]));
}

/// An ordered sequence of blocks, genesis first.
pub struct Blockchain {
    pub chain: Vec<Block>,
}

impl Blockchain {
    /// Wraps an already-built block sequence.
    pub fn new(blocks: Vec<Block>) -> (r: Self)
        ensures
            r.chain@ == blocks@,
    {
        Self { chain: blocks }
    }

    /// Mines a block for `data` on top of the current tail and appends it.
    /// Returns whether a block was appended; the chain is untouched in the
    /// (practically unreachable) case that the nonce space was exhausted.
    pub fn add_block(&mut self, data: &str) -> (r: bool)
        requires
            old(self).chain@.len() > 0,
            old(self).chain@.last().difficulty <= 255,
        ensures
            !r ==> final(self).chain@ == old(self).chain@,
            r ==> final(self).chain@.len() == old(self).chain@.len() + 1
                && final(self).chain@.drop_last() =~= old(self).chain@
                && mined_on(final(self).chain@.last(), old(self).chain@.last(), data@),
            chain_valid(old(self).chain@) ==> chain_valid(final(self).chain@),
    {
        let n = self.chain.len();
        let mined = Block::new_with_previous(data, &self.chain[n - 1]);
        match mined {
            Some(b) => {
                proof {
                    if chain_valid(self.chain@) {
                        lemma_chain_push(self.chain@, b);
                    }
                }
                self.chain.push(b);
                proof {
                    assert(self.chain@.drop_last() =~= old(self).chain@);
                }
                true
            },
            None => false,
        }
    }

    /// The block at index `i`, if the chain is that long.
    pub fn get_nth_block(&self, i: usize) -> (r: Option<&Block>)
        ensures
            i < self.chain@.len() ==> (r matches Some(b) && *b == self.chain@[i as int]),
            i >= self.chain@.len() ==> r is None,
    {
        if i < self.chain.len() {
            Some(&self.chain[i])
        } else {
            None
        }
    }

    /// Checks a whole chain: the first entry must equal the canonical
    /// genesis block field for field, and every later entry must carry its
    /// predecessor's hash and a hash that recomputes from its own fields.
    /// Returns false on the first violation.
    pub fn is_valid_chain(chain: &Blockchain) -> (r: bool)
        requires
            chain.chain@.len() > 0,
        ensures
            r == chain_valid(chain.chain@),
    {
        let genesis = Block::get_first_block();
        let first = &chain.chain[0];
        if !(first.timestamp == genesis.timestamp && first.data == genesis.data
            && first.hash == genesis.hash && first.prev_hash == genesis.prev_hash
            && first.difficulty == genesis.difficulty && first.nonce == genesis.nonce) {
            return false;
        }
        let mut i: usize = 1;
        while i < chain.chain.len()
            invariant
                1 <= i <= chain.chain@.len(),
                is_genesis(chain.chain@[0]),
                forall|k: int|
                    1 <= k < i ==> #[trigger] links(chain.chain@[k - 1], chain.chain@[k]),
            decreases chain.chain@.len() - i,
        {
            let b = &chain.chain[i];
            let prev = &chain.chain[i - 1];
            if !(prev.hash == b.prev_hash) {
                proof {
                    assert(!links(chain.chain@[i as int - 1], chain.chain@[i as int]));
                }
                return false;
            }
            let mut parts: Vec<String> = Vec::new();
            parts.push(crate::encoding::i64_to_string(b.timestamp));
            parts.push(b.data.clone());
            parts.push(prev.hash.clone());
            parts.push(crate::encoding::usize_to_string(b.difficulty));
            parts.push(crate::encoding::usize_to_string(b.nonce));
            proof {
                assert(parts.deep_view() =~= block_hash_parts(
                    b.timestamp,
                    b.data@,
                    prev.hash@,
                    b.difficulty,
                    b.nonce,
                ));
            }
            let recomputed = gen_hash(parts);
            if !(recomputed == b.hash) {
                proof {
                    assert(!links(chain.chain@[i as int - 1], chain.chain@[i as int]));
                }
                return false;
            }
            i = i + 1;
        }
        true
    }

    /// The longest-valid-chain rule: adopts `chain`'s sequence if and only
    /// if it is strictly longer than the current one and valid; otherwise
    /// the call is a no-op.
    pub fn replace_chain(&mut self, chain: &Blockchain)
        ensures
            chain.chain@.len() > old(self).chain@.len() && chain_valid(chain.chain@)
                ==> final(self).chain@ == chain.chain@,
            !(chain.chain@.len() > old(self).chain@.len() && chain_valid(chain.chain@))
                ==> final(self).chain@ == old(self).chain@,
    {
        if chain.chain.len() > self.chain.len() && Blockchain::is_valid_chain(chain) {
            let mut copied: Vec<Block> = Vec::new();
            let mut i: usize = 0;
            while i < chain.chain.len()
                invariant
                    i <= chain.chain@.len(),
                    copied@ =~= chain.chain@.take(i as int),
                decreases chain.chain@.len() - i,
            {
                copied.push(chain.chain[i].clone());
                i = i + 1;
            }
            proof {
                assert(chain.chain@.take(chain.chain@.len() as int) =~= chain.chain@);
            }
            self.chain = copied;
        }
    }

    /// The difficulty for the next mining attempt, from the previous block's
    /// difficulty and the elapsed time since it was mined. Only the
    /// harden-by-one branch can run out of range, so only an elapsed time at
    /// or under the target asks for room above the stored difficulty.
    pub fn optimize_difficulty(block: &Block, timestamp: i64) -> (r: usize)
        requires
            0 <= timestamp <= MINING_SPEED ==> block.difficulty < usize::MAX,
        ensures
            r as int == adjusted_difficulty(block.difficulty as int, timestamp as int),
    {
        let d = block.difficulty;
        if d < 1 {
            return 1;
        }
        if timestamp < 0 || timestamp > MINING_SPEED as i64 {
            d - 1
        } else {
            d + 1
        }
    }
}

} // verus!
