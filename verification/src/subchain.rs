//! An auxiliary chain: blocks of verifiable work, linked and mined like the
//! blocks of the ledger.

use chrono::Utc;
use vstd::prelude::*;
use crate::address_map::AddressMap;
use crate::amount::Amount;
use crate::ledger::amount_at;
use crate::ledger::Balances;
use crate::subchain_block::SubChainBlock;
use crate::subchain_pow::calculate_subchain_hash;
use crate::subchain_pow::has_nonce;
use crate::subchain_pow::work_hash;
use crate::subchain_pow::mine_subchain_block;
use crate::subchain_pow::same_work;
use crate::subchain_pow::subchain_hash;
use crate::subchain_pow::subchain_hash_at;
use crate::digest::meets_difficulty;
use crate::text::same_text;
use crate::work::WorkOracle;

verus! {

/// `chrono::Utc::now().timestamp()`: the seconds since the Unix epoch.
#[verifier::external_body]
fn unix_seconds() -> (seconds: u64) {
    Utc::now().timestamp() as u64
}

/// Whether the block at `i` holds the work that follows the block before
/// it, has the hash of its fields, and names the hash of the block before it.
pub open spec fn work_at<O: WorkOracle>(blocks: Seq<SubChainBlock>, oracle: &O, i: int) -> bool {
    &&& blocks[i].hash@ == subchain_hash(&blocks[i])
    &&& blocks[i].prev_block_hash@ == blocks[i - 1].hash@
    &&& oracle.follows(blocks[i - 1].result@, i as nat, blocks[i].result@)
}

/// Whether every block but the first holds the work that follows the block
/// before it, has the hash of its fields, and names the hash of the block
/// before it.
pub open spec fn work_valid<O: WorkOracle>(blocks: Seq<SubChainBlock>, oracle: &O) -> bool {
    forall|i: int| 1 <= i < blocks.len() ==> #[trigger] work_at(blocks, oracle, i)
}

#[derive(Debug)]
pub struct SubChain {
    /// The chain, genesis block first.
    pub blocks: Vec<SubChainBlock>,
    /// The balances of the chain. Nothing moves them yet.
    pub balances: Balances,
}

impl SubChain {
    /// Whether the chain is the genesis block made at `timestamp`, without
    /// balances: block number 0, result `"Genesis Block"`, no previous hash,
    /// nonce 0, and the hash of these.
    pub open spec fn is_genesis_at(&self, timestamp: u64) -> bool {
        &&& self.blocks@.len() == 1
        &&& self.blocks@[0].block_number == 0
        &&& self.blocks@[0].timestamp == timestamp
        &&& self.blocks@[0].result@ == "Genesis Block"@
        &&& self.blocks@[0].prev_block_hash@ == Seq::<char>::empty()
        &&& self.blocks@[0].nonce == 0
        &&& self.blocks@[0].hash@ == subchain_hash(&self.blocks@[0])
        &&& self.balances.ledger() == Map::<Seq<char>, nat>::empty()
    }

    /// The chain of a genesis block made at `timestamp`.
    pub fn with_genesis_at(timestamp: u64) -> (chain: SubChain)
        ensures
            chain.is_genesis_at(timestamp),
    {
        let mut genesis_block = SubChainBlock {
            block_number: 0,
            timestamp,
            result: "Genesis Block".to_owned(),
            prev_block_hash: String::new(),
            nonce: 0,
            hash: String::new(),
        };
        genesis_block.hash = calculate_subchain_hash(&genesis_block);
        let mut blocks: Vec<SubChainBlock> = Vec::new();
        blocks.push(genesis_block);
        let chain = SubChain { blocks, balances: AddressMap::new() };
        assert(chain.balances.ledger() =~= Map::<Seq<char>, nat>::empty());
        chain
    }

    /// The chain of a genesis block made now.
    pub fn new() -> (chain: SubChain)
        ensures
            exists|timestamp: u64| chain.is_genesis_at(timestamp),
    {
        let timestamp = unix_seconds();
        let chain = SubChain::with_genesis_at(timestamp);
        assert(chain.is_genesis_at(timestamp));
        chain
    }

    /// Appends a block.
    pub fn add_block(&mut self, block: SubChainBlock)
        ensures
            final(self).blocks@ == old(self).blocks@.push(block),
            final(self).balances == old(self).balances,
    {
        self.blocks.push(block);
    }

    /// The last block.
    pub fn get_latest_block(&self) -> (block: &SubChainBlock)
        requires
            self.blocks@.len() > 0,
        ensures
            *block == self.blocks@.last(),
    {
        &self.blocks[self.blocks.len() - 1]
    }

    /// The hash of the last block.
    pub fn get_last_block_hash(&self) -> (hash: String)
        requires
            self.blocks@.len() > 0,
        ensures
            hash@ == self.blocks@.last().hash@,
    {
        self.get_latest_block().hash.clone()
    }

    /// Mines `block` and appends a copy of it, and says whether a nonce was
    /// found. Where none was, the block and the chain stay as they were.
    pub fn mine_block(&mut self, block: &mut SubChainBlock, difficulty: usize) -> (mined: bool)
        ensures
            final(self).balances == old(self).balances,
            same_work(final(block), old(block)),
            mined ==> {
                &&& final(self).blocks@ == old(self).blocks@.push(*final(block))
                &&& final(block).hash@ == subchain_hash(final(block))
                &&& meets_difficulty(final(block).hash@, difficulty as nat)
                &&& forall|n: u64|
                    n < final(block).nonce ==> !meets_difficulty(
                        #[trigger] subchain_hash_at(old(block), n),
                        difficulty as nat,
                    )
            },
            !mined ==> {
                &&& final(self).blocks == old(self).blocks
                &&& *final(block) == *old(block)
                &&& difficulty > 64 || forall|n: u64|
                    !meets_difficulty(#[trigger] subchain_hash_at(old(block), n), difficulty as nat)
            },
    {
        match mine_subchain_block(block, difficulty) {
            Some(_) => {
                self.add_block(block.clone());
                true
            },
            None => false,
        }
    }

    /// Checks the chain against an oracle: the links between the blocks,
    /// and in every block but the first the work.
    pub fn is_valid<O: WorkOracle>(&self, oracle: &O) -> (ok: bool)
        ensures
            ok == work_valid(self.blocks@, oracle),
    {
        let mut i: usize = 1;
        while i < self.blocks.len()
            invariant
                1 <= i,
                forall|j: int|
                    1 <= j < i && j < self.blocks@.len() ==> #[trigger] work_at(
                        self.blocks@,
                        oracle,
                        j,
                    ),
            decreases self.blocks@.len() - i,
        {
            let current = &self.blocks[i];
            let previous = &self.blocks[i - 1];
            if !same_text(current.hash.as_str(), calculate_subchain_hash(current).as_str()) {
                assert(!work_at(self.blocks@, oracle, i as int));
                return false;
            }
            if !same_text(current.prev_block_hash.as_str(), previous.hash.as_str()) {
                assert(!work_at(self.blocks@, oracle, i as int));
                return false;
            }
            if !oracle.verify(previous.result.as_str(), i, current.result.as_str()) {
                assert(!work_at(self.blocks@, oracle, i as int));
                return false;
            }
            assert(work_at(self.blocks@, oracle, i as int));
            i += 1;
        }
        true
    }

    /// Extends the chain by one block of the oracle's work: asks the oracle
    /// for the result that follows, mines a block that holds it and appends
    /// the block. Says whether it did. It does not where the chain is empty,
    /// where the oracle has no work that follows, or where the block of the
    /// work that the oracle gave has no nonce; the chain then stays as it
    /// was. On every other chain it does, with the first nonce that
    /// qualifies.
    pub fn extend<O: WorkOracle>(&mut self, oracle: &O, timestamp: u64, difficulty: usize) -> (extended:
        bool)
        ensures
            final(self).balances == old(self).balances,
            !extended ==> {
                &&& final(self).blocks == old(self).blocks
                &&& {
                    ||| old(self).blocks@.len() == 0
                    ||| forall|text: Seq<char>|
                        !#[trigger] oracle.follows(
                            old(self).blocks@.last().result@,
                            old(self).blocks@.len(),
                            text,
                        )
                    ||| exists|text: Seq<char>|
                        {
                            &&& oracle.follows(
                                old(self).blocks@.last().result@,
                                old(self).blocks@.len(),
                                text,
                            )
                            &&& !#[trigger] has_nonce(
                                old(self).blocks@.len() as u64,
                                timestamp,
                                text,
                                old(self).blocks@.last().hash@,
                                difficulty as nat,
                            )
                        }
                }
            },
            extended ==> forall|nonce: u64|
                nonce < final(self).blocks@.last().nonce ==> !meets_difficulty(
                    #[trigger] work_hash(
                        old(self).blocks@.len() as u64,
                        timestamp,
                        final(self).blocks@.last().result@,
                        old(self).blocks@.last().hash@,
                        nonce,
                    ),
                    difficulty as nat,
                ),
            extended ==> {
                &&& old(self).blocks@.len() > 0
                &&& final(self).blocks@.len() == old(self).blocks@.len() + 1
                &&& final(self).blocks@.drop_last() == old(self).blocks@
                &&& final(self).blocks@.last().block_number == old(self).blocks@.len()
                &&& final(self).blocks@.last().timestamp == timestamp
                &&& final(self).blocks@.last().prev_block_hash@ == old(self).blocks@.last().hash@
                &&& final(self).blocks@.last().hash@ == subchain_hash(&final(self).blocks@.last())
                &&& meets_difficulty(final(self).blocks@.last().hash@, difficulty as nat)
                &&& oracle.follows(
                    old(self).blocks@.last().result@,
                    old(self).blocks@.len(),
                    final(self).blocks@.last().result@,
                )
            },
            extended && work_valid(old(self).blocks@, oracle) ==> work_valid(
                final(self).blocks@,
                oracle,
            ),
    {
        let length = self.blocks.len();
        if length == 0 {
            return false;
        }
        let result = match oracle.produce_next(
            self.blocks[length - 1].result.as_str(),
            length,
        ) {
            Some(result) => result,
            None => {
                return false;
            },
        };
        let mut block = SubChainBlock {
            block_number: length as u64,
            timestamp,
            result,
            prev_block_hash: self.get_last_block_hash(),
            nonce: 0,
            hash: String::new(),
        };
        let ghost fresh = block;
        if !self.mine_block(&mut block, difficulty) {
            proof {
                assert forall|nonce: u64|
                    !meets_difficulty(
                        #[trigger] work_hash(
                            length as u64,
                            timestamp,
                            fresh.result@,
                            old(self).blocks@.last().hash@,
                            nonce,
                        ),
                        difficulty as nat,
                    ) || difficulty > 64 by {
                    assert(subchain_hash_at(&fresh, nonce) == work_hash(
                        length as u64,
                        timestamp,
                        fresh.result@,
                        old(self).blocks@.last().hash@,
                        nonce,
                    ));
                }
                assert(!has_nonce(
                    length as u64,
                    timestamp,
                    fresh.result@,
                    old(self).blocks@.last().hash@,
                    difficulty as nat,
                ));
            }
            return false;
        }
        proof {
            let after = self.blocks@;
            let before = old(self).blocks@;
            assert(after.drop_last() == before);
            assert forall|nonce: u64| nonce < after.last().nonce implies !meets_difficulty(
                #[trigger] work_hash(
                    before.len() as u64,
                    timestamp,
                    after.last().result@,
                    before.last().hash@,
                    nonce,
                ),
                difficulty as nat,
            ) by {
                assert(subchain_hash_at(&fresh, nonce) == work_hash(
                    before.len() as u64,
                    timestamp,
                    after.last().result@,
                    before.last().hash@,
                    nonce,
                ));
            }
            if work_valid(before, oracle) {
                assert forall|i: int| 1 <= i < after.len() implies #[trigger] work_at(
                    after,
                    oracle,
                    i,
                ) by {
                    if i < before.len() {
                        assert(work_at(before, oracle, i));
                        assert(after[i] == before[i]);
                        assert(after[i - 1] == before[i - 1]);
                    } else {
                        assert(after[i - 1] == before.last());
                    }
                }
            }
        }
        true
    }

    /// The balance of an address: zero where none is recorded.
    pub fn get_balance(&self, address: &str) -> (balance: Amount)
        ensures
            balance@ == amount_at(self.balances.ledger(), address@),
    {
        self.balances.balance(address)
    }
}

} // verus!
