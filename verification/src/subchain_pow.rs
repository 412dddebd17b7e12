//! Hash and proof-of-work search of an auxiliary chain's blocks.

pub mod subchain1_utils;

use vstd::prelude::*;
use vstd::string::StringExecFns;
use crate::digest::has_leading_zeros;
use crate::digest::meets_difficulty;
use crate::digest::sha256_hex;
use crate::digest::sha256_hex_string;
use crate::payload::json_quoted;
use crate::payload::quote;
use crate::subchain_block::SubChainBlock;
use crate::text::decimal_text;
use crate::text::push_decimal;

verus! {

/// The text that a block's hash is taken of: a JSON object of block number,
/// timestamp, result, previous hash and nonce, in this order. The stored
/// hash has no part in it.
pub open spec fn subchain_preimage(
    block_number: u64,
    timestamp: u64,
    result: Seq<char>,
    prev_block_hash: Seq<char>,
    nonce: u64,
) -> Seq<char> {
    "{\"block_number\":"@ + decimal_text(block_number as nat) + ",\"timestamp\":"@ + decimal_text(
        timestamp as nat,
    ) + ",\"result\":"@ + json_quoted(result) + ",\"prev_block_hash\":"@ + json_quoted(
        prev_block_hash,
    ) + ",\"nonce\":"@ + decimal_text(nonce as nat) + "}"@
}

/// The hash of a block with the given fields.
pub open spec fn work_hash(
    block_number: u64,
    timestamp: u64,
    result: Seq<char>,
    prev_block_hash: Seq<char>,
    nonce: u64,
) -> Seq<char> {
    sha256_hex(subchain_preimage(block_number, timestamp, result, prev_block_hash, nonce))
}

/// Whether some nonce gives a block of the given fields a hash that meets
/// the difficulty.
pub open spec fn has_nonce(
    block_number: u64,
    timestamp: u64,
    result: Seq<char>,
    prev_block_hash: Seq<char>,
    difficulty: nat,
) -> bool {
    difficulty <= 64 && exists|nonce: u64|
        meets_difficulty(
            #[trigger] work_hash(block_number, timestamp, result, prev_block_hash, nonce),
            difficulty,
        )
}

/// At difficulty 0 every block has a nonce: the first.
pub proof fn lemma_no_difficulty_has_nonce(
    block_number: u64,
    timestamp: u64,
    result: Seq<char>,
    prev_block_hash: Seq<char>,
)
    ensures
        has_nonce(block_number, timestamp, result, prev_block_hash, 0),
{
    assert(meets_difficulty(work_hash(block_number, timestamp, result, prev_block_hash, 0), 0));
}

/// The hash that a block has with `nonce` in place of its own.
pub open spec fn subchain_hash_at(block: &SubChainBlock, nonce: u64) -> Seq<char> {
    work_hash(block.block_number, block.timestamp, block.result@, block.prev_block_hash@, nonce)
}

/// The hash recomputed from a block's stored fields.
pub open spec fn subchain_hash(block: &SubChainBlock) -> Seq<char> {
    subchain_hash_at(block, block.nonce)
}

/// Whether `a` and `b` agree on everything but nonce and hash.
pub open spec fn same_work(a: &SubChainBlock, b: &SubChainBlock) -> bool {
    &&& a.block_number == b.block_number
    &&& a.timestamp == b.timestamp
    &&& a.result@ == b.result@
    &&& a.prev_block_hash@ == b.prev_block_hash@
}

fn hash_with(block: &SubChainBlock, nonce: u64) -> (hash: String)
    ensures
        hash@ == subchain_hash_at(block, nonce),
        hash@.len() == 64,
{
    let mut text = "{\"block_number\":".to_owned();
    push_decimal(&mut text, block.block_number as u128);
    text.append(",\"timestamp\":");
    push_decimal(&mut text, block.timestamp as u128);
    text.append(",\"result\":");
    text.append(quote(block.result.as_str()).as_str());
    text.append(",\"prev_block_hash\":");
    text.append(quote(block.prev_block_hash.as_str()).as_str());
    text.append(",\"nonce\":");
    push_decimal(&mut text, nonce as u128);
    text.append("}");
    sha256_hex_string(text.as_str())
}

/// Recomputes a block's hash from its stored fields; the stored hash is not
/// read.
pub fn calculate_subchain_hash(block: &SubChainBlock) -> (hash: String)
    ensures
        hash@ == subchain_hash(block),
        hash@.len() == 64,
{
    hash_with(block, block.nonce)
}

/// Searches the nonces from 0 upward for the first whose hash starts with
/// `difficulty` zeros, stores that nonce and hash in the block and returns
/// the nonce. When no nonce qualifies the block is left as it was.
pub fn mine_subchain_block(block: &mut SubChainBlock, difficulty: usize) -> (found: Option<u64>)
    ensures
        same_work(final(block), old(block)),
        match found {
            Some(nonce) => {
                &&& difficulty <= 64
                &&& final(block).nonce == nonce
                &&& final(block).hash@ == subchain_hash(final(block))
                &&& meets_difficulty(final(block).hash@, difficulty as nat)
                &&& forall|n: u64|
                    n < nonce ==> !meets_difficulty(
                        #[trigger] subchain_hash_at(old(block), n),
                        difficulty as nat,
                    )
            },
            None => {
                &&& *final(block) == *old(block)
                &&& difficulty > 64 || forall|n: u64|
                    !meets_difficulty(#[trigger] subchain_hash_at(old(block), n), difficulty as nat)
            },
        },
{
    if difficulty > 64 {
        return None;
    }
    let mut nonce: u64 = 0;
    loop
        invariant
            *block == *old(block),
            difficulty <= 64,
            forall|n: u64|
                n < nonce ==> !meets_difficulty(
                    #[trigger] subchain_hash_at(old(block), n),
                    difficulty as nat,
                ),
        decreases u64::MAX - nonce,
    {
        let hash = hash_with(block, nonce);
        if has_leading_zeros(hash.as_str(), difficulty) {
            block.nonce = nonce;
            block.hash = hash;
            return Some(nonce);
        }
        if nonce == u64::MAX {
            return None;
        }
        nonce += 1;
    }
}

} // verus!
