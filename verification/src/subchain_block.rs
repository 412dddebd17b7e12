//! A block of an auxiliary chain. Its payload is the result of some work.

use vstd::prelude::*;

verus! {

#[derive(Debug)]
pub struct SubChainBlock {
    /// The height of the block in its chain.
    pub block_number: u64,
    /// When the block was made, in seconds since the Unix epoch.
    pub timestamp: u64,
    /// The result of the work, as text.
    pub result: String,
    /// The hash of the block before this one.
    pub prev_block_hash: String,
    /// The number that the proof-of-work search settles.
    pub nonce: u64,
    /// The hash of the other fields, as 64 hexadecimal characters.
    pub hash: String,
}

impl Clone for SubChainBlock {
    fn clone(&self) -> (copy: SubChainBlock)
        ensures
            copy == *self,
    {
        SubChainBlock {
            block_number: self.block_number,
            timestamp: self.timestamp,
            result: self.result.clone(),
            prev_block_hash: self.prev_block_hash.clone(),
            nonce: self.nonce,
            hash: self.hash.clone(),
        }
    }
}

} // verus!
