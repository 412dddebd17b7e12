//! The ledger: the chain of blocks, the pool of pending transfers, the
//! balances that the blocks settle, and the rules by which a block is taken.

use vstd::prelude::*;
use crate::address_map::AddressMap;
use crate::address_map::lookup_in;
use crate::address_map::put_in;
use crate::amount::Amount;
use crate::block::block_hash;
use crate::block::Block;
use crate::difficulty::adjusted_difficulty;
use crate::difficulty::adjusted_difficulty_of;
use crate::digest::has_leading_zeros;
use crate::digest::meets_difficulty;
use crate::ledger::Balances;
use crate::ledger::Ledger;
use crate::amount::part_of;
use crate::ledger::amount_at;
use crate::ledger::credited;
use crate::ledger::same_balances;
use crate::rewards::counted;
use crate::rewards::lemma_counted_total;
use crate::rewards::lemma_rewarded_supply;
use crate::rewards::lemma_one_miner_gets_the_reward;
use crate::rewards::rewarded;
use crate::rewards::shared_part;
use crate::rewards::winner_part;
use crate::settlement::fee_rule;
use crate::settlement::FeeRule;
use crate::rewards::shares_paid;
use crate::rewards::total_of;
use crate::settlement::funded;
use crate::settlement::lemma_admitted_keeps_funded;
use crate::settlement::lemma_funded_batch_settles;
use crate::rewards::lemma_rewarded_alike;
use crate::settlement::lemma_settled_batch_alike;
use crate::settlement::lemma_settled_batch_keeps_supply;
use crate::settlement::settle_batch;
use crate::settlement::reserved;
use crate::settlement::settled;
use crate::settlement::settled_batch;
use crate::supply::supply;
use crate::text::same_text;
use crate::transaction::Transaction;
use crate::transaction::TransferView;
use crate::transaction::batch_text;
use crate::transaction::decode_batch;
use crate::transaction::decoded_batch;
use crate::transaction::encode_batch;
use crate::transaction::signed_by;
use crate::transaction::transfers;
use crate::transaction::well_formed;
use crate::wallet::KeyError;

verus! {

/// Whether the block at `i` has the hash of its fields and names the hash of
/// the block before it.
pub open spec fn linked_at(blocks: Seq<Block>, i: int) -> bool {
    blocks[i].is_sealed() && blocks[i].previous_hash@ == blocks[i - 1].hash@
}

/// Every block but the first has the hash of its fields and names the hash
/// of the block before it.
pub open spec fn chain_linked(blocks: Seq<Block>) -> bool {
    forall|i: int| 1 <= i < blocks.len() ==> #[trigger] linked_at(blocks, i)
}

/// Whether every block but the first has the hash of its fields and names
/// the hash of the block before it.
pub fn is_chain_linked(blocks: &Vec<Block>) -> (linked: bool)
    ensures
        linked == chain_linked(blocks@),
{
    let mut i: usize = 1;
    while i < blocks.len()
        invariant
            1 <= i,
            forall|j: int| 1 <= j < i && j < blocks@.len() ==> #[trigger] linked_at(blocks@, j),
        decreases blocks.len() - i,
    {
        let current = &blocks[i];
        let previous = &blocks[i - 1];
        if !same_text(current.hash.as_str(), current.calculate_hash().as_str()) {
            assert(!linked_at(blocks@, i as int));
            return false;
        }
        if !same_text(current.previous_hash.as_str(), previous.hash.as_str()) {
            assert(!linked_at(blocks@, i as int));
            return false;
        }
        assert(linked_at(blocks@, i as int));
        i += 1;
    }
    true
}

/// Why a block is not taken into the chain.
#[derive(Debug, Clone, Copy, PartialEq, Eq, Structural)]
pub enum CommitError {
    /// The block does not follow the last block of the chain.
    Stale,
    /// The block's hash is not the hash of its fields, or does not meet the
    /// difficulty.
    Unmined,
    /// The block's payload is not the pending pool.
    Mismatch,
    /// A transfer of the pool cannot be paid.
    Unfunded,
}

/// What a ledger is made with.
#[derive(Debug)]
pub struct Config {
    /// The time that a block should take, in milliseconds.
    pub target_block_time: u128,
    /// The difficulty of the genesis block and of the first block after it.
    pub initial_difficulty: usize,
    /// What is minted with every block.
    pub mining_reward: Amount,
    /// The liquidity address, which gets its share of every fee.
    pub liquidity_wallet: String,
    /// The rewards address, which gets the rest of every fee.
    pub rewards_wallet: String,
    /// The balances that the ledger starts with.
    pub genesis_balances: Balances,
    /// How many hundredths of every fee go to the liquidity address; the
    /// rest goes to the rewards address.
    pub liquidity_fee_percent: u8,
    /// How many hundredths of the reward go to the winner of a block; the
    /// rest is shared by the contribution counts.
    pub winner_reward_percent: u8,
    /// By how many hundredths the difficulty moves after a block off target.
    pub adjustment_percent: u8,
}

/// A ledger. The pool takes transactions and the chain takes blocks by the
/// rules of this module. The fields are open, and the checks of the chain
/// assume nothing of them.
#[derive(Debug)]
pub struct Blockchain {
    /// The chain, genesis block first.
    pub blocks: Vec<Block>,
    /// The pool of transactions that wait for the next block, oldest first.
    pub pending_transactions: Vec<Transaction>,
    /// What is minted with every block.
    pub mining_reward: Amount,
    /// The balance of every address, as the blocks so far have settled it.
    pub balances: Balances,
    /// The blocks that each miner has mined since the last distribution.
    pub miner_contributions: AddressMap<u64>,
    /// The liquidity address, which gets its share of every fee.
    pub liquidity_wallet: String,
    /// The rewards address, which gets the rest of every fee.
    pub rewards_wallet: String,
    /// The public key of every address that has registered one.
    pub public_keys: AddressMap<Vec<u8>>,
    /// The time that a block should take, in milliseconds.
    pub target_block_time: u128,
    /// The number of zeros that the hash of the next block must start with.
    pub difficulty: usize,
    /// The balances that the ledger started with, before the first block.
    pub genesis_balances: Balances,
    /// The miner of every block behind the genesis block: `miners[i]` mined
    /// the block at height `i + 1`.
    pub miners: Vec<String>,
    /// How many hundredths of every fee go to the liquidity address; the
    /// rest goes to the rewards address.
    pub liquidity_fee_percent: u8,
    /// How many hundredths of the reward go to the winner of a block; the
    /// rest is shared by the contribution counts.
    pub winner_reward_percent: u8,
    /// By how many hundredths the difficulty moves after a block off target.
    pub adjustment_percent: u8,
}

/// A point in time of `std`.
#[verifier::external_type_specification]
#[verifier::external_body]
pub struct ExSystemTime(std::time::SystemTime);

/// `SystemTime::now`: the time of the system clock.
#[verifier::external_body]
fn system_time() -> (now: std::time::SystemTime) {
    std::time::SystemTime::now()
}

/// `SystemTime::duration_since` the Unix epoch; `None` for a time before it.
#[verifier::external_body]
fn since_epoch(time: &std::time::SystemTime) -> (since: Option<core::time::Duration>) {
    time.duration_since(std::time::UNIX_EPOCH).ok()
}

/// `Duration::as_millis`: the whole milliseconds of a duration.
#[verifier::external_body]
fn whole_millis(duration: &core::time::Duration) -> (millis: u128) {
    duration.as_millis()
}

/// The time in milliseconds since the Unix epoch; zero for a clock that
/// stands before it.
fn now_millis() -> u128 {
    match since_epoch(&system_time()) {
        Some(since) => whole_millis(&since),
        None => 0,
    }
}

impl Blockchain {
    /// The ledger that the balances stand for.
    pub open spec fn ledger(&self) -> Ledger {
        self.balances.ledger()
    }

    /// Where the fees of this ledger go.
    pub open spec fn fee_rule(&self) -> FeeRule {
        fee_rule(self.liquidity_wallet@, self.rewards_wallet@, self.liquidity_fee_percent)
    }

    /// What the pending pool holds.
    pub open spec fn pool(&self) -> Seq<TransferView> {
        transfers(self.pending_transactions@)
    }

    /// A ledger without balances, whose chain is the genesis block: index 0,
    /// timestamp 0, previous hash `"0"`, payload `"Genesis Block"`, mined at
    /// the initial difficulty.
    pub fn with_config(config: Config) -> (chain: Blockchain)
        ensures
            chain.blocks@.len() == 1,
            chain.blocks@[0].index == 0,
            chain.blocks@[0].timestamp == 0,
            chain.blocks@[0].previous_hash@ == "0"@,
            chain.blocks@[0].data@ == "Genesis Block"@,
            chain.blocks@[0].is_sealed(),
            chain.blocks@[0].is_searched(config.initial_difficulty as nat),
            chain.pending_transactions@.len() == 0,
            chain.mining_reward@ == config.mining_reward@,
            chain.ledger() == config.genesis_balances.ledger(),
            chain.genesis_balances.ledger() == config.genesis_balances.ledger(),
            chain.miners@.len() == 0,
            chain.miner_contributions.pairs().len() == 0,
            chain.liquidity_wallet@ == config.liquidity_wallet@,
            chain.rewards_wallet@ == config.rewards_wallet@,
            chain.public_keys.pairs().len() == 0,
            chain.target_block_time == config.target_block_time,
            chain.difficulty == config.initial_difficulty,
            chain.liquidity_fee_percent == config.liquidity_fee_percent,
            chain.winner_reward_percent == config.winner_reward_percent,
            chain.adjustment_percent == config.adjustment_percent,
            chain.valid(),
    {
        let mut genesis = Block::new(0, 0, "0".to_owned(), "Genesis Block".to_owned(), 0);
        let _ = genesis.mine_block(config.initial_difficulty);
        let mut blocks: Vec<Block> = Vec::new();
        blocks.push(genesis);
        let chain = Blockchain {
            blocks,
            pending_transactions: Vec::new(),
            mining_reward: config.mining_reward,
            balances: config.genesis_balances.duplicate(),
            miner_contributions: AddressMap::new(),
            liquidity_wallet: config.liquidity_wallet,
            rewards_wallet: config.rewards_wallet,
            public_keys: AddressMap::new(),
            target_block_time: config.target_block_time,
            difficulty: config.initial_difficulty,
            genesis_balances: config.genesis_balances,
            miners: Vec::new(),
            liquidity_fee_percent: config.liquidity_fee_percent,
            winner_reward_percent: config.winner_reward_percent,
            adjustment_percent: config.adjustment_percent,
        };
        proof {
            lemma_genesis_only_is_valid(chain);
        }
        chain
    }

    /// The ledger with the usual settings: 450 seconds between blocks,
    /// difficulty 2 that moves by a tenth, a reward of 40 coins of which
    /// seven tenths go to the winner, fees that go in halves to the two
    /// protocol addresses, and the first balances of `"System"` and
    /// `"Alice"`.
    pub fn new() -> (chain: Blockchain)
        ensures
            chain.blocks@.len() == 1,
            chain.blocks@[0].index == 0,
            chain.blocks@[0].timestamp == 0,
            chain.blocks@[0].previous_hash@ == "0"@,
            chain.blocks@[0].data@ == "Genesis Block"@,
            chain.blocks@[0].is_sealed(),
            chain.blocks@[0].is_searched(2),
            chain.pending_transactions@.len() == 0,
            chain.mining_reward@ == 40 * 100000000,
            chain.ledger() == Map::<Seq<char>, nat>::empty().insert(
                "System"@,
                1000000000000 * 100000000,
            ).insert("Alice"@, 1000 * 100000000),
            chain.genesis_balances.ledger() == chain.ledger(),
            chain.miners@.len() == 0,
            chain.miner_contributions.pairs().len() == 0,
            chain.liquidity_wallet@ == "LiquidityWallet"@,
            chain.rewards_wallet@ == "RewardsWallet"@,
            chain.public_keys.pairs().len() == 0,
            chain.target_block_time == 450000,
            chain.difficulty == 2,
            chain.liquidity_fee_percent == 50,
            chain.winner_reward_percent == 70,
            chain.adjustment_percent == 10,
            chain.valid(),
    {
        let mut first: Balances = AddressMap::new();
        assert(first.ledger() =~= Map::<Seq<char>, nat>::empty());
        let ghost empty = first.ledger();
        first.credit("System", &Amount::from_coins(1000000000000));
        let ghost funded = first.ledger();
        first.credit("Alice", &Amount::from_coins(1000));
        proof {
            reveal_strlit("System");
            reveal_strlit("Alice");
            assert("System"@.len() == 6);
            assert("Alice"@.len() == 5);
            assert(funded == empty.insert("System"@, 1000000000000 * 100000000));
            assert(!funded.contains_key("Alice"@));
            assert(first.ledger() == funded.insert("Alice"@, 1000 * 100000000));
        }
        Blockchain::with_config(
            Config {
                target_block_time: 450000,
                initial_difficulty: 2,
                mining_reward: Amount::from_coins(40),
                liquidity_wallet: "LiquidityWallet".to_owned(),
                rewards_wallet: "RewardsWallet".to_owned(),
                genesis_balances: first,
                liquidity_fee_percent: 50,
                winner_reward_percent: 70,
                adjustment_percent: 10,
            },
        )
    }

    /// Gives an address a first balance, on top of what it has. This is
    /// done only while the chain is the genesis block and nothing is pending;
    /// the result says whether it was.
    pub fn allocate(&mut self, address: &str, amount: &Amount) -> (done: bool)
        ensures
            done == (old(self).blocks@.len() == 1 && old(self).pending_transactions@.len() == 0),
            done ==> final(self).ledger() == credited(old(self).ledger(), address@, amount@),
            done ==> final(self).genesis_balances.ledger() == credited(
                old(self).genesis_balances.ledger(),
                address@,
                amount@,
            ),
            !done ==> final(self).balances == old(self).balances && final(self).genesis_balances
                == old(self).genesis_balances,
            final(self).blocks == old(self).blocks,
            final(self).pending_transactions == old(self).pending_transactions,
            final(self).mining_reward == old(self).mining_reward,
            final(self).miner_contributions == old(self).miner_contributions,
            final(self).liquidity_wallet == old(self).liquidity_wallet,
            final(self).rewards_wallet == old(self).rewards_wallet,
            final(self).public_keys == old(self).public_keys,
            final(self).target_block_time == old(self).target_block_time,
            final(self).difficulty == old(self).difficulty,
            final(self).miners == old(self).miners,
            final(self).liquidity_fee_percent == old(self).liquidity_fee_percent,
            final(self).winner_reward_percent == old(self).winner_reward_percent,
            final(self).adjustment_percent == old(self).adjustment_percent,
    {
        if self.blocks.len() != 1 || self.pending_transactions.len() != 0 {
            return false;
        }
        self.balances.credit(address, amount);
        self.genesis_balances.credit(address, amount);
        true
    }

    /// The balance of an address: zero where none is recorded.
    pub fn get_balance(&self, address: &str) -> (balance: Amount)
        ensures
            balance@ == amount_at(self.ledger(), address@),
    {
        self.balances.balance(address)
    }

    /// Registers the public key of an address, in place of an earlier one.
    pub fn store_public_key(&mut self, address: &str, public_key: Vec<u8>)
        ensures
            final(self).public_keys.pairs() == put_in(
                old(self).public_keys.pairs(),
                address@,
                public_key,
            ),
            forall|other: Seq<char>|
                #[trigger] lookup_in(final(self).public_keys.pairs(), other) == if other
                    == address@ {
                    Some(public_key)
                } else {
                    lookup_in(old(self).public_keys.pairs(), other)
                },
            final(self).blocks == old(self).blocks,
            final(self).pending_transactions == old(self).pending_transactions,
            final(self).mining_reward == old(self).mining_reward,
            final(self).balances == old(self).balances,
            final(self).miner_contributions == old(self).miner_contributions,
            final(self).liquidity_wallet == old(self).liquidity_wallet,
            final(self).rewards_wallet == old(self).rewards_wallet,
            final(self).target_block_time == old(self).target_block_time,
            final(self).genesis_balances == old(self).genesis_balances,
            final(self).miners == old(self).miners,
            final(self).liquidity_fee_percent == old(self).liquidity_fee_percent,
            final(self).winner_reward_percent == old(self).winner_reward_percent,
            final(self).adjustment_percent == old(self).adjustment_percent,
            final(self).difficulty == old(self).difficulty,
    {
        self.public_keys.insert(address.to_owned(), public_key);
    }

    /// The registered public key of an address; an error where none is.
    pub fn get_public_key(&self, address: &str) -> (key: Result<Vec<u8>, KeyError>)
        ensures
            match key {
                Ok(bytes) => self.public_keys.lookup(address@) is Some
                    && self.public_keys.lookup(address@).unwrap()@ == bytes@,
                Err(error) => self.public_keys.lookup(address@) is None && error
                    == KeyError::Unregistered,
            },
    {
        match self.public_keys.get(address) {
            Some(bytes) => Ok(bytes.clone()),
            None => Err(KeyError::Unregistered),
        }
    }

    /// What the pending transfers take from a sender.
    pub fn reserved_for(&self, sender: &str) -> (total: Amount)
        ensures
            total@ == reserved(self.pool(), sender@),
    {
        let mut total = Amount::zero();
        let mut i: usize = 0;
        while i < self.pending_transactions.len()
            invariant
                i <= self.pending_transactions@.len(),
                total@ == reserved(self.pool().take(i as int), sender@),
            decreases self.pending_transactions@.len() - i,
        {
            let transaction = &self.pending_transactions[i];
            proof {
                assert(self.pool().take(i + 1).drop_last() == self.pool().take(i as int));
                assert(self.pool().take(i + 1).last() == transaction@);
            }
            if same_text(transaction.sender.as_str(), sender) {
                total = total.plus(&transaction.amount).plus(&transaction.fee);
            }
            i += 1;
        }
        assert(self.pool().take(i as int) == self.pool());
        total
    }

    /// Whether a transfer may join the pool: it is well-formed, and the
    /// sender's balance covers it together with what the pool already takes
    /// from that sender.
    pub open spec fn admits(&self, t: TransferView) -> bool {
        well_formed(t) && amount_at(self.ledger(), t.sender) >= reserved(self.pool(), t.sender)
            + t.amount + t.fee
    }

    /// Adds a transaction to the pending pool if the ledger admits it, and
    /// says whether it did. Nothing else changes, and nothing at all where
    /// the transaction is refused.
    pub fn create_transaction(&mut self, transaction: Transaction) -> (accepted: bool)
        ensures
            accepted == old(self).admits(transaction@),
            accepted ==> final(self).pending_transactions@ == old(self).pending_transactions@.push(transaction),
            accepted ==> final(self).pool() == old(self).pool().push(transaction@),
            funded(old(self).ledger(), old(self).pool()) ==> funded(
                final(self).ledger(),
                final(self).pool(),
            ),
            !accepted ==> final(self).pending_transactions == old(self).pending_transactions,
            final(self).blocks == old(self).blocks,
            final(self).mining_reward == old(self).mining_reward,
            final(self).balances == old(self).balances,
            final(self).miner_contributions == old(self).miner_contributions,
            final(self).liquidity_wallet == old(self).liquidity_wallet,
            final(self).rewards_wallet == old(self).rewards_wallet,
            final(self).public_keys == old(self).public_keys,
            final(self).target_block_time == old(self).target_block_time,
            final(self).genesis_balances == old(self).genesis_balances,
            final(self).miners == old(self).miners,
            final(self).liquidity_fee_percent == old(self).liquidity_fee_percent,
            final(self).winner_reward_percent == old(self).winner_reward_percent,
            final(self).adjustment_percent == old(self).adjustment_percent,
            final(self).difficulty == old(self).difficulty,
    {
        if !transaction.is_well_formed() {
            return false;
        }
        let due = self.reserved_for(transaction.sender.as_str()).plus(&transaction.amount).plus(
            &transaction.fee,
        );
        if !self.balances.balance(transaction.sender.as_str()).covers(&due) {
            return false;
        }
        self.pending_transactions.push(transaction);
        proof {
            assert(self.pool() =~= old(self).pool().push(transaction@));
            if funded(old(self).ledger(), old(self).pool()) {
                lemma_admitted_keeps_funded(old(self).ledger(), old(self).pool(), transaction@);
            }
        }
        true
    }

    /// Sets the difficulty after a block that took `elapsed` milliseconds.
    pub fn adjust_difficulty(&mut self, elapsed: u128)
        ensures
            final(self).difficulty == adjusted_difficulty_of(
                old(self).difficulty,
                elapsed,
                old(self).target_block_time,
                old(self).adjustment_percent,
            ),
            final(self).blocks == old(self).blocks,
            final(self).pending_transactions == old(self).pending_transactions,
            final(self).mining_reward == old(self).mining_reward,
            final(self).balances == old(self).balances,
            final(self).miner_contributions == old(self).miner_contributions,
            final(self).liquidity_wallet == old(self).liquidity_wallet,
            final(self).rewards_wallet == old(self).rewards_wallet,
            final(self).public_keys == old(self).public_keys,
            final(self).target_block_time == old(self).target_block_time,
            final(self).genesis_balances == old(self).genesis_balances,
            final(self).miners == old(self).miners,
            final(self).liquidity_fee_percent == old(self).liquidity_fee_percent,
            final(self).winner_reward_percent == old(self).winner_reward_percent,
            final(self).adjustment_percent == old(self).adjustment_percent,
    {
        self.difficulty = adjusted_difficulty(
            self.difficulty,
            elapsed,
            self.target_block_time,
            self.adjustment_percent,
        );
    }

    /// Whether `self` differs from `before` in nothing but the balances.
    pub open spec fn only_balances_moved(&self, before: &Blockchain) -> bool {
        &&& self.blocks == before.blocks
        &&& self.pending_transactions == before.pending_transactions
        &&& self.mining_reward == before.mining_reward
        &&& self.miner_contributions == before.miner_contributions
        &&& self.liquidity_wallet == before.liquidity_wallet
        &&& self.rewards_wallet == before.rewards_wallet
        &&& self.public_keys == before.public_keys
        &&& self.target_block_time == before.target_block_time
        &&& self.difficulty == before.difficulty
        &&& self.genesis_balances == before.genesis_balances
        &&& self.miners == before.miners
        &&& self.liquidity_fee_percent == before.liquidity_fee_percent
        &&& self.winner_reward_percent == before.winner_reward_percent
        &&& self.adjustment_percent == before.adjustment_percent
    }

    /// The sum of the miners' contribution counts.
    pub fn total_contributions(&self) -> (total: u128)
        ensures
            total == total_of(self.miner_contributions.pairs()),
    {
        let n = self.miner_contributions.len();
        let mut total: u128 = 0;
        let mut i: usize = 0;
        while i < n
            invariant
                i <= n,
                n == self.miner_contributions.pairs().len(),
                total == total_of(self.miner_contributions.pairs().take(i as int)),
                total <= i * u64::MAX,
            decreases n - i,
        {
            proof {
                let counts = self.miner_contributions.pairs();
                assert(counts.take(i + 1).drop_last() == counts.take(i as int));
            }
            total = total + *self.miner_contributions.value_at(i) as u128;
            i += 1;
        }
        assert(self.miner_contributions.pairs().take(i as int) == self.miner_contributions.pairs());
        total
    }

    /// Distributes the mining reward: the winner's part to the winner, and
    /// the rest to the miners by their contribution counts, each share
    /// rounded down. The counts are cleared. Nothing happens where they sum
    /// to zero.
    pub fn distribute_rewards(&mut self, winner: String)
        ensures
            final(self).ledger() == rewarded(
                old(self).ledger(),
                winner@,
                old(self).miner_contributions.pairs(),
                old(self).mining_reward@,
                old(self).winner_reward_percent as nat,
            ),
            total_of(old(self).miner_contributions.pairs()) > 0 ==> final(self).miner_contributions.pairs().len() == 0,
            total_of(old(self).miner_contributions.pairs()) == 0 ==> final(self).miner_contributions == old(self).miner_contributions,
            final(self).blocks == old(self).blocks,
            final(self).pending_transactions == old(self).pending_transactions,
            final(self).mining_reward == old(self).mining_reward,
            final(self).liquidity_wallet == old(self).liquidity_wallet,
            final(self).rewards_wallet == old(self).rewards_wallet,
            final(self).public_keys == old(self).public_keys,
            final(self).target_block_time == old(self).target_block_time,
            final(self).genesis_balances == old(self).genesis_balances,
            final(self).miners == old(self).miners,
            final(self).liquidity_fee_percent == old(self).liquidity_fee_percent,
            final(self).winner_reward_percent == old(self).winner_reward_percent,
            final(self).adjustment_percent == old(self).adjustment_percent,
            final(self).difficulty == old(self).difficulty,
    {
        let total = self.total_contributions();
        if total == 0 {
            return ;
        }
        let winner_reward = self.mining_reward.hundredths(self.winner_reward_percent);
        self.balances.credit(winner.as_str(), &winner_reward);
        let remaining_reward = match self.mining_reward.checked_minus(&winner_reward) {
            Some(rest) => rest,
            None => Amount::zero(),
        };
        let ghost base = self.ledger();
        let ghost counts = self.miner_contributions.pairs();
        let n = self.miner_contributions.len();
        let mut i: usize = 0;
        while i < n
            invariant
                i <= n,
                n == counts.len(),
                total > 0,
                counts == self.miner_contributions.pairs(),
                self.only_balances_moved(old(self)),
                self.ledger() == shares_paid(
                    base,
                    counts.take(i as int),
                    remaining_reward@,
                    total as nat,
                ),
            decreases n - i,
        {
            proof {
                assert(counts.take(i + 1).drop_last() == counts.take(i as int));
            }
            let count = *self.miner_contributions.value_at(i);
            let share = remaining_reward.portion(count as u128, total);
            self.balances.credit(self.miner_contributions.address_at(i).as_str(), &share);
            i += 1;
        }
        assert(counts.take(i as int) == counts);
        self.miner_contributions.clear();
    }

    /// The balances after the pending transfers are settled in their order,
    /// or `None` where one of them cannot be paid. The ledger is not changed.
    pub fn settle_pool(&self) -> (outcome: Option<Balances>)
        ensures
            match outcome {
                Some(balances) => settled_batch(
                    self.ledger(),
                    self.pool(),
                    self.fee_rule()
                ) == Some(balances.ledger()),
                None => settled_batch(
                    self.ledger(),
                    self.pool(),
                    self.fee_rule()
                ) is None,
            },
    {
        let mut scratch = self.balances.duplicate();
        if settle_batch(
            &mut scratch,
            &self.pending_transactions,
            self.liquidity_wallet.as_str(),
            self.rewards_wallet.as_str(),
            self.liquidity_fee_percent,
        ) {
            Some(scratch)
        } else {
            None
        }
    }

    /// Drops the pending pool where it cannot be settled, and says whether
    /// it did. A pool that can be settled stays; nothing else changes.
    pub fn drop_unsettled_pool(&mut self) -> (dropped: bool)
        ensures
            dropped == (settled_batch(old(self).ledger(), old(self).pool(), old(self).fee_rule())
                is None),
            dropped ==> final(self).pending_transactions@.len() == 0,
            !dropped ==> final(self).pending_transactions == old(self).pending_transactions,
            final(self).blocks == old(self).blocks,
            final(self).mining_reward == old(self).mining_reward,
            final(self).balances == old(self).balances,
            final(self).miner_contributions == old(self).miner_contributions,
            final(self).liquidity_wallet == old(self).liquidity_wallet,
            final(self).rewards_wallet == old(self).rewards_wallet,
            final(self).public_keys == old(self).public_keys,
            final(self).target_block_time == old(self).target_block_time,
            final(self).genesis_balances == old(self).genesis_balances,
            final(self).miners == old(self).miners,
            final(self).liquidity_fee_percent == old(self).liquidity_fee_percent,
            final(self).winner_reward_percent == old(self).winner_reward_percent,
            final(self).adjustment_percent == old(self).adjustment_percent,
            final(self).difficulty == old(self).difficulty,
    {
        match self.settle_pool() {
            Some(_) => false,
            None => {
                self.pending_transactions.clear();
                true
            },
        }
    }

    /// Whether a block follows the last block of the chain.
    pub open spec fn follows(&self, block: &Block) -> bool {
        &&& self.blocks@.len() > 0
        &&& block.index == self.blocks@.last().index + 1
        &&& block.previous_hash@ == self.blocks@.last().hash@
    }

    /// Why the ledger does not take a block, if it does not: the first of
    /// the four reasons that holds.
    pub open spec fn refusal(&self, block: &Block) -> Option<CommitError> {
        if !self.follows(block) {
            Some(CommitError::Stale)
        } else if !(block.is_sealed() && meets_difficulty(block.hash@, self.difficulty as nat)) {
            Some(CommitError::Unmined)
        } else if block.data@ != batch_text(self.pool()) {
            Some(CommitError::Mismatch)
        } else if settled_batch(
            self.ledger(),
            self.pool(),
            self.fee_rule()
        ) is None {
            Some(CommitError::Unfunded)
        } else {
            None
        }
    }

    /// Whether `self` is what `before` becomes when it takes `block`, mined
    /// by `miner` in `elapsed` milliseconds: the block is appended, the
    /// difficulty retargeted, the pool settled and emptied, the miner's block
    /// counted and the reward distributed.
    pub open spec fn committed(
        &self,
        before: &Blockchain,
        block: Block,
        miner: Seq<char>,
        elapsed: u128,
    ) -> bool {
        &&& before.refusal(&block) is None
        &&& self.blocks@ == before.blocks@.push(block)
        &&& self.pending_transactions@.len() == 0
        &&& self.difficulty == adjusted_difficulty_of(
                before.difficulty,
                elapsed,
                before.target_block_time,
                before.adjustment_percent,
            )
        &&& self.ledger() == rewarded(
            settled_batch(
                before.ledger(),
                before.pool(),
                before.fee_rule()
            ).unwrap(),
            miner,
            counted(before.miner_contributions.pairs(), miner),
            before.mining_reward@,
            before.winner_reward_percent as nat,
        )
        &&& self.miner_contributions.pairs().len() == 0
        &&& self.mining_reward == before.mining_reward
        &&& self.liquidity_wallet == before.liquidity_wallet
        &&& self.rewards_wallet == before.rewards_wallet
        &&& self.public_keys == before.public_keys
        &&& self.target_block_time == before.target_block_time
        &&& self.genesis_balances == before.genesis_balances
        &&& texts(self.miners@) == texts(before.miners@).push(miner)
        &&& self.liquidity_fee_percent == before.liquidity_fee_percent
        &&& self.winner_reward_percent == before.winner_reward_percent
        &&& self.adjustment_percent == before.adjustment_percent
    }

    /// The block that would follow the chain now: it holds the pending pool
    /// as its payload and has nonce 0. `None` where the chain is empty or
    /// its last index is the largest there is.
    pub fn prepare_block(&self, timestamp: u128) -> (prepared: Option<Block>)
        ensures
            match prepared {
                Some(block) => {
                    &&& self.follows(&block)
                    &&& block.timestamp == timestamp
                    &&& block.data@ == batch_text(self.pool())
                    &&& block.nonce == 0
                    &&& block.is_sealed()
                },
                None => self.blocks@.len() == 0 || self.blocks@.last().index == u64::MAX,
            },
    {
        if self.blocks.len() == 0 {
            return None;
        }
        let last = &self.blocks[self.blocks.len() - 1];
        if last.index == u64::MAX {
            return None;
        }
        Some(
            Block::new(
                last.index + 1,
                timestamp,
                last.hash.clone(),
                encode_batch(&self.pending_transactions),
                0,
            ),
        )
    }

    /// Counts one more block of `miner`.
    pub fn record_contribution(&mut self, miner: &str)
        ensures
            final(self).miner_contributions.pairs() == counted(
                old(self).miner_contributions.pairs(),
                miner@,
            ),
            final(self).balances == old(self).balances,
            final(self).blocks == old(self).blocks,
            final(self).pending_transactions == old(self).pending_transactions,
            final(self).mining_reward == old(self).mining_reward,
            final(self).liquidity_wallet == old(self).liquidity_wallet,
            final(self).rewards_wallet == old(self).rewards_wallet,
            final(self).public_keys == old(self).public_keys,
            final(self).target_block_time == old(self).target_block_time,
            final(self).genesis_balances == old(self).genesis_balances,
            final(self).miners == old(self).miners,
            final(self).liquidity_fee_percent == old(self).liquidity_fee_percent,
            final(self).winner_reward_percent == old(self).winner_reward_percent,
            final(self).adjustment_percent == old(self).adjustment_percent,
            final(self).difficulty == old(self).difficulty,
    {
        let count: u64 = match self.miner_contributions.get(miner) {
            Some(count) => *count,
            None => 0,
        };
        let next: u64 = if count < u64::MAX {
            count + 1
        } else {
            u64::MAX
        };
        self.miner_contributions.insert(miner.to_owned(), next);
    }

    /// Takes a mined block into the chain, if it follows the chain's last
    /// block, is mined at the difficulty in force, holds the pending pool, and
    /// the pool can be settled. Else the ledger stays as it was, and the
    /// error says why.
    pub fn commit_block(&mut self, block: Block, miner_address: String, elapsed: u128) -> (outcome:
        Result<(), CommitError>)
        ensures
            match outcome {
                Ok(_) => final(self).committed(old(self), block, miner_address@, elapsed),
                Err(error) => old(self).refusal(&block) == Some(error) && *final(self) == *old(
                    self,
                ),
            },
    {
        if self.blocks.len() == 0 {
            return Err(CommitError::Stale);
        }
        let last = &self.blocks[self.blocks.len() - 1];
        if last.index == u64::MAX || block.index != last.index + 1 || !same_text(
            block.previous_hash.as_str(),
            last.hash.as_str(),
        ) {
            return Err(CommitError::Stale);
        }
        if !same_text(block.hash.as_str(), block.calculate_hash().as_str()) || !has_leading_zeros(
            block.hash.as_str(),
            self.difficulty,
        ) {
            return Err(CommitError::Unmined);
        }
        if !same_text(block.data.as_str(), encode_batch(&self.pending_transactions).as_str()) {
            return Err(CommitError::Mismatch);
        }
        let settled = match self.settle_pool() {
            Some(balances) => balances,
            None => {
                return Err(CommitError::Unfunded);
            },
        };
        self.blocks.push(block);
        self.miners.push(miner_address.clone());
        assert(texts(self.miners@) =~= texts(old(self).miners@).push(miner_address@));
        self.adjust_difficulty(elapsed);
        self.balances = settled;
        self.record_contribution(miner_address.as_str());
        proof {
            lemma_counted_total(old(self).miner_contributions.pairs(), miner_address@);
        }
        self.distribute_rewards(miner_address);
        self.pending_transactions.clear();
        Ok(())
    }

    /// The hash of the block that would follow the chain now, made at
    /// `timestamp`, with `nonce`.
    pub open spec fn candidate_hash(&self, timestamp: u128, nonce: u64) -> Seq<char> {
        block_hash(
            (self.blocks@.last().index + 1) as u64,
            timestamp,
            self.blocks@.last().hash@,
            batch_text(self.pool()),
            nonce,
        )
    }

    /// Whether some nonce gives the block that would follow the chain now,
    /// made at `timestamp`, a hash that meets the difficulty in force.
    pub open spec fn minable_at(&self, timestamp: u128) -> bool {
        self.difficulty <= 64 && exists|nonce: u64|
            meets_difficulty(
                #[trigger] self.candidate_hash(timestamp, nonce),
                self.difficulty as nat,
            )
    }

    /// Mines the pending pool into a block and takes the block into the
    /// chain, and says whether it did. The time is read before the search,
    /// for the block's timestamp, and after it, for the time that the search
    /// took. A block is committed unless the chain is empty or its last
    /// index is the largest there is, the pool cannot be settled, or the
    /// block made at the time that was read has no nonce; the ledger then
    /// stays as it was. The block that is committed has the first nonce that
    /// qualifies.
    pub fn mine_pending_transactions(&mut self, miner_address: String) -> (mined: bool)
        ensures
            mined ==> exists|block: Block, elapsed: u128|
                {
                    &&& #[trigger] final(self).committed(old(self), block, miner_address@, elapsed)
                    &&& forall|nonce: u64|
                        nonce < block.nonce ==> !meets_difficulty(
                            #[trigger] old(self).candidate_hash(block.timestamp, nonce),
                            old(self).difficulty as nat,
                        )
                },
            !mined ==> {
                &&& *final(self) == *old(self)
                &&& {
                    ||| old(self).blocks@.len() == 0
                    ||| old(self).blocks@.last().index == u64::MAX
                    ||| settled_batch(
                        old(self).ledger(),
                        old(self).pool(),
                        old(self).fee_rule()
                    ) is None
                    ||| exists|timestamp: u128| !#[trigger] old(self).minable_at(timestamp)
                }
            },
    {
        let start_time = now_millis();
        let mut block = match self.prepare_block(start_time) {
            Some(block) => block,
            None => {
                return false;
            },
        };
        let ghost prepared = block;
        proof {
            assert forall|nonce: u64|
                prepared.hash_at(nonce) == #[trigger] self.candidate_hash(start_time, nonce) by {}
        }
        if !block.mine_block(self.difficulty) {
            proof {
                assert(!self.minable_at(start_time)) by {
                    if self.difficulty <= 64 {
                        assert forall|nonce: u64|
                            !meets_difficulty(
                                #[trigger] self.candidate_hash(start_time, nonce),
                                self.difficulty as nat,
                            ) by {
                            assert(prepared.hash_at(nonce) == self.candidate_hash(
                                start_time,
                                nonce,
                            ));
                        }
                    }
                }
            }
            return false;
        }
        let end_time = now_millis();
        let elapsed: u128 = if end_time >= start_time {
            end_time - start_time
        } else {
            0
        };
        let ghost mined_block = block;
        proof {
            assert forall|nonce: u64| nonce < mined_block.nonce implies !meets_difficulty(
                #[trigger] self.candidate_hash(mined_block.timestamp, nonce),
                self.difficulty as nat,
            ) by {
                assert(prepared.hash_at(nonce) == self.candidate_hash(start_time, nonce));
            }
        }
        match self.commit_block(block, miner_address, elapsed) {
            Ok(_) => {
                assert(self.committed(old(self), mined_block, miner_address@, elapsed));
                true
            },
            Err(_) => {
                assert(old(self).refusal(&mined_block) == Some(CommitError::Unfunded));
                false
            },
        }
    }

    /// Whether a transfer is authentic: the sender's public key is registered
    /// and accepts the signature, and the transfer is well-formed.
    pub open spec fn authentic(&self, t: TransferView) -> bool {
        &&& self.public_keys.lookup(t.sender) is Some
        &&& signed_by(t, self.public_keys.lookup(t.sender).unwrap()@) == Ok::<bool, KeyError>(true)
        &&& well_formed(t)
    }

    /// Whether a transfer of the chain stands: it is authentic, and covered
    /// by the sender's balance as it is now.
    pub open spec fn confirms(&self, t: TransferView) -> bool {
        &&& self.authentic(t)
        &&& amount_at(self.ledger(), t.sender) >= t.amount + t.fee
    }

    /// The ledger after a block of the miner is replayed on `before`: the
    /// transfers of its payload are settled in their order, each on what the
    /// ones before it left, and the miner gets the reward. `None` where the
    /// payload holds no batch, a transfer is not authentic, or one cannot be
    /// paid.
    #[verifier::opaque]
    pub open spec fn replayed_block(
        &self,
        before: Ledger,
        data: Seq<char>,
        miner: Seq<char>,
    ) -> Option<Ledger> {
        match decoded_batch(data) {
            Some(batch) => if forall|j: int|
                0 <= j < batch.len() ==> self.authentic(#[trigger] batch[j]) {
                match settled_batch(before, batch, self.fee_rule()) {
                    Some(after) => Some(
                        rewarded(
                            after,
                            miner,
                            seq![(miner, 1u64)],
                            self.mining_reward@,
                            self.winner_reward_percent as nat,
                        ),
                    ),
                    None => None,
                }
            } else {
                None
            },
            None => None,
        }
    }

    /// The ledger after the first `count` blocks behind the genesis block
    /// are replayed on `start`, the `i`-th of them as mined by `miners[i]`.
    pub open spec fn replayed(
        &self,
        start: Ledger,
        miners: Seq<Seq<char>>,
        count: nat,
    ) -> Option<Ledger>
        decreases count,
    {
        if count == 0 {
            Some(start)
        } else {
            match self.replayed(start, miners, (count - 1) as nat) {
                Some(before) => self.replayed_block(
                    before,
                    self.blocks@[count as int].data@,
                    miners[count - 1],
                ),
                None => None,
            }
        }
    }

    /// Whether the chain is linked, has one miner for every block behind the
    /// genesis block, and replays from `start` to the balances of now.
    pub open spec fn valid_by_replay(&self, start: Ledger, miners: Seq<Seq<char>>) -> bool {
        &&& chain_linked(self.blocks@)
        &&& self.blocks@.len() == miners.len() + 1
        &&& self.replayed(start, miners, miners.len()) is Some
        &&& same_balances(self.replayed(start, miners, miners.len()).unwrap(), self.ledger())
    }

    /// Whether a payload holds a batch of transfers that all stand.
    pub open spec fn confirms_payload(&self, data: Seq<char>) -> bool {
        match decoded_batch(data) {
            Some(batch) => forall|j: int| 0 <= j < batch.len() ==> self.confirms(#[trigger] batch[j]),
            None => false,
        }
    }

    /// Whether the chain is linked and the payload of every block but the
    /// first holds transfers that all stand against the balances of now.
    /// This is a quick check, and no validity: a sender who has spent since
    /// fails it.
    pub open spec fn confirmed_now(&self) -> bool {
        &&& chain_linked(self.blocks@)
        &&& forall|i: int|
            1 <= i < self.blocks@.len() ==> self.confirms_payload((#[trigger] self.blocks@[i]).data@)
    }

    /// Whether the chain is valid: it is linked, and replays from the
    /// balances that the ledger started with, block by block with the miner
    /// that the ledger recorded, to the balances of now. In the replay every
    /// transfer is authentic and is paid from the balances that the blocks
    /// before it left.
    pub open spec fn valid(&self) -> bool {
        self.valid_by_replay(self.genesis_balances.ledger(), texts(self.miners@))
    }

    /// Checks signature and form of one transaction.
    pub fn authenticates(&self, transaction: &Transaction) -> (ok: bool)
        ensures
            ok == self.authentic(transaction@),
    {
        let public_key = match self.public_keys.get(transaction.sender.as_str()) {
            Some(key) => key,
            None => {
                return false;
            },
        };
        match transaction.verify(public_key.as_slice()) {
            Ok(true) => {},
            Ok(false) => {
                return false;
            },
            Err(_) => {
                return false;
            },
        }
        transaction.is_well_formed()
    }

    /// Checks one transaction of the chain.
    pub fn confirms_transaction(&self, transaction: &Transaction) -> (ok: bool)
        ensures
            ok == self.confirms(transaction@),
    {
        self.authenticates(transaction) && transaction.validate(self)
    }

    /// Replays one block of the miner on the balances: settles the transfers
    /// of its payload and gives the miner the reward. Says whether it could;
    /// the balances are of no use where it could not.
    pub fn replay_block(&self, balances: &mut Balances, data: &str, miner: &str) -> (ok: bool)
        ensures
            ok ==> self.replayed_block(old(balances).ledger(), data@, miner@) == Some(
                final(balances).ledger(),
            ),
            !ok ==> self.replayed_block(old(balances).ledger(), data@, miner@) is None,
    {
        proof {
            reveal(Blockchain::replayed_block);
        }
        let batch = match decode_batch(data) {
            Some(batch) => batch,
            None => {
                return false;
            },
        };
        let mut j: usize = 0;
        while j < batch.len()
            invariant
                j <= batch@.len(),
                *balances == *old(balances),
                decoded_batch(data@) == Some(transfers(batch@)),
                forall|k: int| 0 <= k < j ==> self.authentic(#[trigger] transfers(batch@)[k]),
            decreases batch@.len() - j,
        {
            if !self.authenticates(&batch[j]) {
                proof {
                    reveal(Blockchain::replayed_block);
                    let decoded = decoded_batch(data@).unwrap();
                    assert(decoded[j as int] == batch@[j as int]@);
                    assert(!self.authentic(decoded[j as int]));
                }
                return false;
            }
            j += 1;
        }
        if !settle_batch(
            balances,
            &batch,
            self.liquidity_wallet.as_str(),
            self.rewards_wallet.as_str(),
            self.liquidity_fee_percent,
        ) {
            return false;
        }
        let ghost after = balances.ledger();
        let winner_reward = self.mining_reward.hundredths(self.winner_reward_percent);
        balances.credit(miner, &winner_reward);
        let share = match self.mining_reward.checked_minus(&winner_reward) {
            Some(rest) => rest.portion(1, 1),
            None => Amount::zero(),
        };
        balances.credit(miner, &share);
        proof {
            let counts = seq![(miner@, 1u64)];
            assert(counts.drop_last().len() == 0);
            assert(total_of(counts.drop_last()) == 0);
            assert(total_of(counts) == 1);
            let wp = self.winner_reward_percent as nat;
            let first = credited(after, miner@, winner_part(self.mining_reward@, wp));
            assert(shares_paid(first, counts.drop_last(), shared_part(self.mining_reward@, wp), 1)
                == first);
            assert(rewarded(after, miner@, counts, self.mining_reward@, wp) == balances.ledger());
        }
        true
    }

    /// Replays the blocks behind the genesis block on the given balances,
    /// the block at height `i + 1` as mined by `miners[i]`. `None` where
    /// there is not one miner for each of these blocks, or a block cannot be
    /// replayed.
    pub fn replay(&self, genesis_balances: &Balances, miners: &Vec<String>) -> (outcome: Option<
        Balances,
    >)
        ensures
            match outcome {
                Some(balances) => {
                    &&& self.blocks@.len() == miners@.len() + 1
                    &&& self.replayed(genesis_balances.ledger(), texts(miners@), miners@.len())
                        == Some(balances.ledger())
                },
                None => {
                    ||| self.blocks@.len() != miners@.len() + 1
                    ||| self.replayed(genesis_balances.ledger(), texts(miners@), miners@.len())
                        is None
                },
            },
    {
        let height = self.blocks.len();
        if miners.len() >= height || height - miners.len() != 1 {
            return None;
        }
        let mut balances = genesis_balances.duplicate();
        let mut i: usize = 0;
        while i < miners.len()
            invariant
                i <= miners@.len(),
                self.blocks@.len() == miners@.len() + 1,
                self.replayed(genesis_balances.ledger(), texts(miners@), i as nat) == Some(
                    balances.ledger(),
                ),
            decreases miners@.len() - i,
        {
            assert(texts(miners@)[i as int] == miners@[i as int]@);
            let replayed = self.replay_block(
                &mut balances,
                self.blocks[i + 1].data.as_str(),
                miners[i].as_str(),
            );
            if !replayed {
                proof {
                    lemma_replay_stays_failed(
                        *self,
                        genesis_balances.ledger(),
                        texts(miners@),
                        (i + 1) as nat,
                        miners@.len() as nat,
                    );
                }
                return None;
            }
            i += 1;
        }
        Some(balances)
    }

    /// Checks the whole chain by replaying it: the links between the blocks,
    /// and block by block each transfer's signature and form, and its cover
    /// by the balances that the blocks before it left, starting from the
    /// given balances. `miners[i]` is the miner of the block at height
    /// `i + 1`. What the replay leaves must be the balances of now.
    pub fn is_valid_by_replay(&self, genesis_balances: &Balances, miners: &Vec<String>) -> (ok:
        bool)
        ensures
            ok == self.valid_by_replay(genesis_balances.ledger(), texts(miners@)),
    {
        assert(texts(miners@).len() == miners@.len());
        if !is_chain_linked(&self.blocks) {
            return false;
        }
        match self.replay(genesis_balances, miners) {
            Some(balances) => balances.same_as(&self.balances),
            None => false,
        }
    }

    /// Checks the payload of one block of the chain.
    pub fn confirms_block(&self, data: &str) -> (ok: bool)
        ensures
            ok == self.confirms_payload(data@),
    {
        let batch = match decode_batch(data) {
            Some(batch) => batch,
            None => {
                return false;
            },
        };
        let mut j: usize = 0;
        while j < batch.len()
            invariant
                j <= batch@.len(),
                decoded_batch(data@) == Some(transfers(batch@)),
                forall|k: int| 0 <= k < j ==> self.confirms(#[trigger] transfers(batch@)[k]),
            decreases batch@.len() - j,
        {
            if !self.confirms_transaction(&batch[j]) {
                proof {
                    let decoded = decoded_batch(data@).unwrap();
                    assert(decoded[j as int] == batch@[j as int]@);
                    assert(!self.confirms(decoded[j as int]));
                }
                return false;
            }
            j += 1;
        }
        true
    }

    /// Checks the chain against the balances of now: the links between the
    /// blocks, and in every block but the first each transfer's signature,
    /// form and cover by the sender's balance as it is now. This is a quick
    /// check, and no validity: a sender who has spent since fails it.
    pub fn is_confirmed_now(&self) -> (ok: bool)
        ensures
            ok == self.confirmed_now(),
    {
        if !is_chain_linked(&self.blocks) {
            return false;
        }
        let mut i: usize = 1;
        while i < self.blocks.len()
            invariant
                1 <= i,
                forall|k: int|
                    1 <= k < i && k < self.blocks@.len() ==> self.confirms_payload(
                        (#[trigger] self.blocks@[k]).data@,
                    ),
            decreases self.blocks@.len() - i,
        {
            if !self.confirms_block(self.blocks[i].data.as_str()) {
                return false;
            }
            i += 1;
        }
        true
    }

    /// Checks the whole chain by replaying it from the balances that the
    /// ledger started with: the links between the blocks, and block by block
    /// each transfer's signature and form, and its cover by the balances that
    /// the blocks before it left. What the replay leaves must be the
    /// balances of now.
    pub fn is_valid(&self) -> (ok: bool)
        ensures
            ok == self.valid(),
    {
        self.is_valid_by_replay(&self.genesis_balances, &self.miners)
    }
}

/// A block that follows the chain, is mined and holds the pool is taken
/// where the pool is funded.
pub proof fn lemma_funded_pool_is_taken(chain: Blockchain, block: Block)
    requires
        funded(chain.ledger(), chain.pool()),
        chain.follows(&block),
        block.is_sealed(),
        meets_difficulty(block.hash@, chain.difficulty as nat),
        block.data@ == batch_text(chain.pool()),
    ensures
        chain.refusal(&block) is None,
{
    lemma_funded_batch_settles(
        chain.ledger(),
        chain.pool(),
        chain.fee_rule()
    );
}

/// A committed block keeps what the ledger held and adds no more than the
/// mining reward: transfers and fees only move balances, and the reward is
/// the one source of new value.
pub proof fn lemma_commit_mints_at_most_the_reward(
    before: Blockchain,
    after: Blockchain,
    block: Block,
    miner: Seq<char>,
    elapsed: u128,
)
    requires
        before.ledger().dom().finite(),
        after.committed(&before, block, miner, elapsed),
    ensures
        supply(before.ledger()) <= supply(after.ledger()) <= supply(before.ledger())
            + before.mining_reward@,
{
    let settled_ledger = settled_batch(
        before.ledger(),
        before.pool(),
        before.fee_rule()
    ).unwrap();
    lemma_settled_batch_keeps_supply(
        before.ledger(),
        before.pool(),
        before.fee_rule()
    );
    lemma_rewarded_supply(
        settled_ledger,
        miner,
        counted(before.miner_contributions.pairs(), miner),
        before.mining_reward@,
        before.winner_reward_percent as nat,
    );
}

/// A committed block mints the reward to the last unit where no
/// contribution was counted before it, as after every block: transfers and
/// fees only move balances, and the block's miner, the one contributor, gets
/// the winner's part and all of the rest.
pub proof fn lemma_commit_mints_the_reward(
    before: Blockchain,
    after: Blockchain,
    block: Block,
    miner: Seq<char>,
    elapsed: u128,
)
    requires
        before.ledger().dom().finite(),
        before.miner_contributions.pairs().len() == 0,
        after.committed(&before, block, miner, elapsed),
    ensures
        supply(after.ledger()) == supply(before.ledger()) + before.mining_reward@,
        after.miner_contributions.pairs().len() == 0,
{
    let settled_ledger = settled_batch(before.ledger(), before.pool(), before.fee_rule()).unwrap();
    lemma_settled_batch_keeps_supply(before.ledger(), before.pool(), before.fee_rule());
    let counts = counted(before.miner_contributions.pairs(), miner);
    assert(counts == seq![(miner, 1u64)]);
    lemma_one_miner_gets_the_reward(
        settled_ledger,
        miner,
        miner,
        1u64,
        before.mining_reward@,
        before.winner_reward_percent as nat,
    );
}

/// Whether each ledger of `states` but the first is what the one before it
/// becomes when it takes the block of that step.
pub open spec fn successive(
    states: Seq<Blockchain>,
    blocks: Seq<Block>,
    miners: Seq<Seq<char>>,
    elapsed: Seq<u128>,
) -> bool {
    &&& states.len() == blocks.len() + 1
    &&& miners.len() == blocks.len()
    &&& elapsed.len() == blocks.len()
    &&& forall|i: int|
        0 <= i < blocks.len() ==> (#[trigger] states[i + 1]).committed(
            &states[i],
            blocks[i],
            miners[i],
            elapsed[i],
        )
}

/// Whether `after` has the chain of `before` and one block more, which
/// follows it.
pub open spec fn extends(after: Blockchain, before: Blockchain, block: Block) -> bool {
    &&& before.blocks@.len() > 0
    &&& after.blocks@ == before.blocks@.push(block)
    &&& block.index == before.blocks@.last().index + 1
    &&& chain_linked(before.blocks@) ==> chain_linked(after.blocks@)
}

proof fn lemma_extensions_in_sequence(states: Seq<Blockchain>, blocks: Seq<Block>)
    requires
        states.len() == blocks.len() + 1,
        forall|i: int| 0 <= i < blocks.len() ==> extends(#[trigger] states[i + 1], states[i], blocks[i]),
    ensures
        states.last().blocks@.len() == states[0].blocks@.len() + blocks.len(),
        forall|j: int|
            0 <= j < blocks.len() ==> #[trigger] states.last().blocks@[states[0].blocks@.len() + j]
                == blocks[j],
        forall|j: int|
            0 <= j < states[0].blocks@.len() ==> #[trigger] states.last().blocks@[j]
                == states[0].blocks@[j],
        forall|j: int|
            states[0].blocks@.len() <= j < states.last().blocks@.len() ==> (
            #[trigger] states.last().blocks@[j]).index == states.last().blocks@[j - 1].index + 1,
        chain_linked(states[0].blocks@) ==> chain_linked(states.last().blocks@),
    decreases blocks.len(),
{
    if blocks.len() > 0 {
        let n = blocks.len() as int;
        let earlier_states = states.drop_last();
        let earlier_blocks = blocks.drop_last();
        assert forall|i: int| 0 <= i < earlier_blocks.len() implies extends(
            #[trigger] earlier_states[i + 1],
            earlier_states[i],
            earlier_blocks[i],
        ) by {
            assert(extends(states[i + 1], states[i], blocks[i]));
        }
        lemma_extensions_in_sequence(earlier_states, earlier_blocks);
        let before = states[n - 1];
        let after = states[n];
        assert(before == earlier_states.last());
        assert(after == states.last());
        assert(extends(states[(n - 1) + 1], states[n - 1], blocks[n - 1]));
        assert(extends(states[0int + 1], states[0], blocks[0]));
        let first_len = states[0].blocks@.len() as int;
        let old_len = before.blocks@.len() as int;
        assert(old_len == first_len + n - 1);
        assert forall|j: int| first_len <= j < after.blocks@.len() implies (
        #[trigger] after.blocks@[j]).index == after.blocks@[j - 1].index + 1 by {
            if j < old_len {
                assert(before.blocks@[j].index == before.blocks@[j - 1].index + 1);
            }
        }
        assert forall|j: int| 0 <= j < blocks.len() implies #[trigger] after.blocks@[first_len + j]
            == blocks[j] by {
            if j < n - 1 {
                assert(before.blocks@[first_len + j] == earlier_blocks[j]);
            }
        }
        assert forall|j: int| 0 <= j < first_len implies #[trigger] after.blocks@[j]
            == states[0].blocks@[j] by {
            assert(before.blocks@[j] == states[0].blocks@[j]);
        }
    }
}

/// However many blocks are committed one after the other, by whichever
/// miners, each raises the chain by one: the chain grows by their number,
/// every index is one more than the index before it, no two blocks share a
/// height, and a linked chain stays linked.
pub proof fn lemma_commits_in_sequence(
    states: Seq<Blockchain>,
    blocks: Seq<Block>,
    miners: Seq<Seq<char>>,
    elapsed: Seq<u128>,
)
    requires
        successive(states, blocks, miners, elapsed),
    ensures
        states.last().blocks@.len() == states[0].blocks@.len() + blocks.len(),
        forall|j: int|
            0 <= j < blocks.len() ==> #[trigger] states.last().blocks@[states[0].blocks@.len() + j]
                == blocks[j],
        forall|j: int|
            0 <= j < states[0].blocks@.len() ==> #[trigger] states.last().blocks@[j]
                == states[0].blocks@[j],
        forall|j: int|
            states[0].blocks@.len() <= j < states.last().blocks@.len() ==> (
            #[trigger] states.last().blocks@[j]).index == states.last().blocks@[j - 1].index + 1,
        chain_linked(states[0].blocks@) ==> chain_linked(states.last().blocks@),
{
    assert forall|i: int| 0 <= i < blocks.len() implies extends(
        #[trigger] states[i + 1],
        states[i],
        blocks[i],
    ) by {
        lemma_commit_extends(states[i], states[i + 1], blocks[i], miners[i], elapsed[i]);
    }
    lemma_extensions_in_sequence(states, blocks);
}

/// A ledger that took a block has the chain of before and that block more.
proof fn lemma_commit_extends(
    before: Blockchain,
    after: Blockchain,
    block: Block,
    miner: Seq<char>,
    elapsed: u128,
)
    requires
        after.committed(&before, block, miner, elapsed),
    ensures
        extends(after, before, block),
{
    if chain_linked(before.blocks@) {
        lemma_commit_keeps_chain_linked(before, after, block, miner, elapsed);
    }
}

/// Taking a block keeps a ledger valid: where the ledger is valid, no
/// contribution is counted yet, and the pool's transfers are authentic and
/// are what the block's payload holds, the ledger with the block is valid.
pub proof fn lemma_commit_keeps_valid(
    before: Blockchain,
    after: Blockchain,
    block: Block,
    miner: Seq<char>,
    elapsed: u128,
)
    requires
        before.valid(),
        after.committed(&before, block, miner, elapsed),
        before.miner_contributions.pairs().len() == 0,
        decoded_batch(block.data@) == Some(before.pool()),
        forall|j: int| 0 <= j < before.pool().len() ==> before.authentic(#[trigger] before.pool()[j]),
    ensures
        after.valid(),
{
    lemma_commit_keeps_replay_valid(
        before,
        after,
        block,
        miner,
        elapsed,
        before.genesis_balances.ledger(),
        texts(before.miners@),
    );
}

/// After a block is taken the pool is empty, and so funded.
pub proof fn lemma_committed_pool_is_funded(
    before: Blockchain,
    after: Blockchain,
    block: Block,
    miner: Seq<char>,
    elapsed: u128,
)
    requires
        after.committed(&before, block, miner, elapsed),
    ensures
        after.pool().len() == 0,
        funded(after.ledger(), after.pool()),
{
}

/// What a sequence of texts holds.
pub open spec fn texts(items: Seq<String>) -> Seq<Seq<char>> {
    Seq::new(items.len(), |i: int| items[i]@)
}

/// A replay that has failed at some block has failed at every later one.
pub proof fn lemma_replay_stays_failed(
    chain: Blockchain,
    start: Ledger,
    miners: Seq<Seq<char>>,
    failed: nat,
    count: nat,
)
    requires
        failed <= count,
        chain.replayed(start, miners, failed) is None,
    ensures
        chain.replayed(start, miners, count) is None,
    decreases count,
{
    if failed < count {
        lemma_replay_stays_failed(chain, start, miners, failed, (count - 1) as nat);
    }
}

/// The replay of the first `count` blocks reads those blocks, the miners of
/// those blocks, the keys, the protocol addresses and the reward, and
/// nothing else of a ledger.
proof fn lemma_replay_reads_a_prefix(
    first: Blockchain,
    second: Blockchain,
    start: Ledger,
    first_miners: Seq<Seq<char>>,
    second_miners: Seq<Seq<char>>,
    count: nat,
)
    requires
        count < first.blocks@.len(),
        count < second.blocks@.len(),
        count <= first_miners.len(),
        count <= second_miners.len(),
        forall|i: int| 1 <= i <= count ==> first.blocks@[i] == second.blocks@[i],
        forall|i: int| 0 <= i < count ==> first_miners[i] == second_miners[i],
        first.public_keys == second.public_keys,
        first.mining_reward == second.mining_reward,
        first.liquidity_wallet == second.liquidity_wallet,
        first.rewards_wallet == second.rewards_wallet,
        first.liquidity_fee_percent == second.liquidity_fee_percent,
        first.winner_reward_percent == second.winner_reward_percent,
    ensures
        first.replayed(start, first_miners, count) == second.replayed(start, second_miners, count),
    decreases count,
{
    if count > 0 {
        lemma_replay_reads_a_prefix(
            first,
            second,
            start,
            first_miners,
            second_miners,
            (count - 1) as nat,
        );
        reveal(Blockchain::replayed_block);
    }
}

/// Taking a block keeps a chain valid by replay: where a chain replays to
/// its balances, no contribution is counted yet, and the pool's transfers
/// are authentic and are what the block's payload holds, the chain with the
/// block replays to its balances too, with the block's miner added.
pub proof fn lemma_commit_keeps_replay_valid(
    before: Blockchain,
    after: Blockchain,
    block: Block,
    miner: Seq<char>,
    elapsed: u128,
    start: Ledger,
    miners: Seq<Seq<char>>,
)
    requires
        before.valid_by_replay(start, miners),
        after.committed(&before, block, miner, elapsed),
        before.miner_contributions.pairs().len() == 0,
        decoded_batch(block.data@) == Some(before.pool()),
        forall|j: int| 0 <= j < before.pool().len() ==> before.authentic(#[trigger] before.pool()[j]),
    ensures
        after.valid_by_replay(start, miners.push(miner)),
{
    lemma_commit_keeps_chain_linked(before, after, block, miner, elapsed);
    let count = miners.len();
    let longer = miners.push(miner);
    let pool = before.pool();
    lemma_replay_reads_a_prefix(before, after, start, miners, longer, count);
    let replayed_before = before.replayed(start, miners, count).unwrap();
    let ours = settled_batch(
        replayed_before,
        pool,
        before.fee_rule()
    );
    let theirs = settled_batch(
        before.ledger(),
        pool,
        before.fee_rule()
    );
    lemma_settled_batch_alike(
        replayed_before,
        before.ledger(),
        pool,
        before.fee_rule()
    );
    let counts = counted(before.miner_contributions.pairs(), miner);
    assert(counts == seq![(miner, 1u64)]);
    lemma_rewarded_alike(
        ours.unwrap(),
        theirs.unwrap(),
        miner,
        counts,
        before.mining_reward@,
        before.winner_reward_percent as nat,
    );
    assert(after.blocks@[count as int + 1] == block);
    assert(longer[count as int] == miner);
    assert(after.replayed(start, longer, (count + 1) as nat) == Some(
        rewarded(
            ours.unwrap(),
            miner,
            counts,
            before.mining_reward@,
            before.winner_reward_percent as nat,
        ),
    )) by {
        reveal(Blockchain::replayed_block);
        assert forall|j: int| 0 <= j < pool.len() implies after.authentic(#[trigger] pool[j]) by {
            assert(before.authentic(pool[j]));
        }
    }
}

/// At difficulty 0 the block that follows a chain has a nonce, whenever it
/// is made: the first.
pub proof fn lemma_no_difficulty_is_minable(chain: Blockchain, timestamp: u128)
    requires
        chain.difficulty == 0,
    ensures
        chain.minable_at(timestamp),
{
    assert(meets_difficulty(chain.candidate_hash(timestamp, 0), 0));
}

/// A chain of one block is linked, and valid where no miner is recorded and
/// the balances are those that the ledger started with.
pub proof fn lemma_genesis_only_is_valid(chain: Blockchain)
    requires
        chain.blocks@.len() == 1,
        chain.miners@.len() == 0,
        same_balances(chain.genesis_balances.ledger(), chain.ledger()),
    ensures
        chain_linked(chain.blocks@),
        chain.valid(),
{
}

/// A linked chain is no longer linked when the previous hash of a block
/// other than the first is replaced by another text.
pub proof fn lemma_corrupted_link_breaks_chain(blocks: Seq<Block>, i: int, corrupted: Block)
    requires
        chain_linked(blocks),
        1 <= i < blocks.len(),
        corrupted.previous_hash@ != blocks[i].previous_hash@,
    ensures
        !chain_linked(blocks.update(i, corrupted)),
{
    let broken = blocks.update(i, corrupted);
    assert(linked_at(blocks, i));
    assert(!linked_at(broken, i));
}

/// A ledger with such a corrupted block is not valid.
pub proof fn lemma_corrupted_link_invalidates(before: Blockchain, after: Blockchain, i: int)
    requires
        before.valid(),
        1 <= i < before.blocks@.len(),
        after.blocks@ == before.blocks@.update(i, after.blocks@[i]),
        after.blocks@[i].previous_hash@ != before.blocks@[i].previous_hash@,
    ensures
        !after.valid(),
{
    lemma_corrupted_link_breaks_chain(before.blocks@, i, after.blocks@[i]);
}

/// Once a block is committed, no other block for the same height is taken:
/// it is refused as stale, whatever else holds of it.
pub proof fn lemma_one_block_per_height(
    before: Blockchain,
    after: Blockchain,
    block: Block,
    rival: Block,
    miner: Seq<char>,
    elapsed: u128,
)
    requires
        after.committed(&before, block, miner, elapsed),
        rival.index == block.index,
    ensures
        after.refusal(&rival) == Some(CommitError::Stale),
{
    assert(after.blocks@.last() == block);
}

/// A linked chain is still linked after it took a block.
pub proof fn lemma_commit_keeps_chain_linked(
    before: Blockchain,
    after: Blockchain,
    block: Block,
    miner: Seq<char>,
    elapsed: u128,
)
    requires
        chain_linked(before.blocks@),
        after.committed(&before, block, miner, elapsed),
    ensures
        chain_linked(after.blocks@),
{
    assert forall|i: int| 1 <= i < after.blocks@.len() implies #[trigger] linked_at(
        after.blocks@,
        i,
    ) by {
        if i < before.blocks@.len() {
            assert(linked_at(before.blocks@, i));
            assert(after.blocks@[i] == before.blocks@[i]);
            assert(after.blocks@[i - 1] == before.blocks@[i - 1]);
        } else {
            assert(after.blocks@[i] == block);
            assert(after.blocks@[i - 1] == before.blocks@.last());
        }
    }
}

/// A committed block raises the height of the chain by one and holds the
/// index of that height.
pub proof fn lemma_commit_extends_by_one(
    before: Blockchain,
    after: Blockchain,
    block: Block,
    miner: Seq<char>,
    elapsed: u128,
)
    requires
        after.committed(&before, block, miner, elapsed),
    ensures
        after.blocks@.len() == before.blocks@.len() + 1,
        after.blocks@.last().index == before.blocks@.last().index + 1,
        after.blocks@.last().previous_hash@ == before.blocks@.last().hash@,
        after.blocks@.last().is_sealed(),
        meets_difficulty(after.blocks@.last().hash@, before.difficulty as nat),
{
    assert(after.blocks@.last() == block);
}

} // verus!
