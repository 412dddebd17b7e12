use infinimath::address_map::AddressMap;
use infinimath::amount::Amount;
use infinimath::block::Block;
use infinimath::difficulty::adjusted_difficulty;
use infinimath::blockchain::is_chain_linked;
use infinimath::blockchain::Blockchain;
use infinimath::blockchain::CommitError;
use infinimath::blockchain::Config;
use infinimath::transaction::Transaction;
use infinimath::wallet::KeyError;
use infinimath::wallet::OptionalSerializableSignature;
use infinimath::wallet::Wallet;

fn coins(n: u64) -> Amount {
    Amount::from_coins(n)
}

fn payment(sender: &str, receiver: &str, amount: &str, fee: &str) -> Transaction {
    Transaction {
        sender: sender.to_string(),
        receiver: receiver.to_string(),
        amount: Amount::parse(amount).expect("an amount"),
        fee: Amount::parse(fee).expect("a fee"),
        signature: OptionalSerializableSignature(None),
    }
}

fn config(initial_difficulty: usize, genesis_balances: AddressMap<Amount>) -> Config {
    Config {
        target_block_time: 450000,
        initial_difficulty,
        mining_reward: coins(40),
        liquidity_wallet: "LiquidityWallet".to_string(),
        rewards_wallet: "RewardsWallet".to_string(),
        genesis_balances,
        liquidity_fee_percent: 50,
        winner_reward_percent: 70,
        adjustment_percent: 10,
    }
}

fn easy_chain() -> Blockchain {
    let mut first: AddressMap<Amount> = AddressMap::new();
    first.credit("A", &coins(100));
    Blockchain::with_config(config(1, first))
}

fn balance_text(chain: &Blockchain, address: &str) -> String {
    chain.get_balance(address).to_text()
}

#[test]
fn new_ledger_has_genesis_and_first_balances() {
    let chain = Blockchain::new();
    assert_eq!(chain.blocks.len(), 1);
    let genesis = &chain.blocks[0];
    assert_eq!(genesis.index, 0);
    assert_eq!(genesis.timestamp, 0);
    assert_eq!(genesis.previous_hash, "0");
    assert_eq!(genesis.data, "Genesis Block");
    assert_eq!(genesis.hash, genesis.calculate_hash());
    assert!(genesis.hash.starts_with("00"));
    assert_eq!(chain.difficulty, 2);
    assert_eq!(chain.target_block_time, 450000);
    assert_eq!(chain.mining_reward.to_text(), "40.00000000");
    assert_eq!(balance_text(&chain, "System"), "1000000000000.00000000");
    assert_eq!(balance_text(&chain, "Alice"), "1000.00000000");
    assert_eq!(balance_text(&chain, "Unknown"), "0.00000000");
    assert_eq!(chain.liquidity_wallet, "LiquidityWallet");
    assert_eq!(chain.rewards_wallet, "RewardsWallet");
    assert!(chain.pending_transactions.is_empty());
    assert_eq!(chain.miner_contributions.len(), 0);
    assert_eq!(chain.public_keys.len(), 0);
}

#[test]
fn genesis_only_chain_is_valid() {
    let chain = Blockchain::new();
    assert!(chain.is_valid());
    assert!(is_chain_linked(&chain.blocks));
    assert!(is_chain_linked(&Vec::new()));
}

#[test]
fn corrupted_previous_hash_breaks_the_chain() {
    let mut chain = easy_chain();
    assert!(chain.mine_pending_transactions("M".to_string()));
    assert!(chain.mine_pending_transactions("M".to_string()));
    assert_eq!(chain.blocks.len(), 3);
    assert!(chain.is_valid());
    for i in 1..3 {
        let kept = chain.blocks[i].previous_hash.clone();
        chain.blocks[i].previous_hash = "corrupted".to_string();
        assert!(!chain.is_valid());
        assert!(!is_chain_linked(&chain.blocks));
        chain.blocks[i].previous_hash = kept;
        assert!(chain.is_valid());
    }
}

#[test]
fn corrupted_payload_or_hash_breaks_the_chain() {
    let mut chain = easy_chain();
    assert!(chain.mine_pending_transactions("M".to_string()));
    let kept = chain.blocks[1].data.clone();
    chain.blocks[1].data = "[[\"A\",\"B\",\"1\",\"0\",null]]".to_string();
    assert!(!chain.is_valid());
    chain.blocks[1].data = kept;
    assert!(chain.is_valid());
    chain.blocks[1].nonce += 1;
    assert!(!chain.is_valid());
    chain.blocks[1].nonce -= 1;
    chain.blocks[1].hash = "0".repeat(64);
    assert!(!chain.is_valid());
}

#[test]
fn covered_transaction_is_enqueued() {
    let mut chain = easy_chain();
    let tx = payment("A", "B", "10", "1");
    assert!(tx.validate(&chain));
    assert!(chain.create_transaction(tx));
    assert_eq!(chain.pending_transactions.len(), 1);
    assert_eq!(balance_text(&chain, "A"), "100.00000000");
    assert_eq!(balance_text(&chain, "B"), "0.00000000");
}

#[test]
fn uncovered_transaction_is_never_enqueued() {
    let mut chain = easy_chain();
    let tx = payment("A", "B", "95", "10");
    assert!(!tx.validate(&chain));
    assert!(!chain.create_transaction(tx));
    assert!(chain.pending_transactions.is_empty());
    assert!(!chain.create_transaction(payment("", "B", "1", "0")));
    assert!(!chain.create_transaction(payment("A", "B", "0", "1")));
    assert!(!chain.create_transaction(payment("Nobody", "B", "1", "0")));
    assert!(chain.pending_transactions.is_empty());
    assert_eq!(balance_text(&chain, "A"), "100.00000000");
}

#[test]
fn pending_transfers_reserve_the_balance() {
    let mut chain = easy_chain();
    assert!(chain.create_transaction(payment("A", "B", "60", "0")));
    assert!(payment("A", "C", "60", "0").validate(&chain));
    assert!(!chain.create_transaction(payment("A", "C", "60", "0")));
    assert!(chain.create_transaction(payment("A", "C", "39", "1")));
    assert!(!chain.create_transaction(payment("A", "C", "0.00000001", "0")));
    assert!(!chain.create_transaction(payment("B", "C", "1", "0")));
    assert_eq!(chain.pending_transactions.len(), 2);
    assert_eq!(chain.reserved_for("A").to_text(), "100.00000000");
    assert_eq!(chain.reserved_for("B").to_text(), "0.00000000");
    assert!(chain.settle_pool().is_some());
}

#[test]
fn mined_block_settles_the_transfer() {
    let mut chain = easy_chain();
    assert!(chain.create_transaction(payment("A", "B", "10", "1")));
    assert!(chain.mine_pending_transactions("M".to_string()));
    assert_eq!(balance_text(&chain, "A"), "89.00000000");
    assert_eq!(balance_text(&chain, "B"), "10.00000000");
    assert_eq!(balance_text(&chain, "LiquidityWallet"), "0.50000000");
    assert_eq!(balance_text(&chain, "RewardsWallet"), "0.50000000");
    assert_eq!(balance_text(&chain, "M"), "40.00000000");
    assert!(chain.pending_transactions.is_empty());
    assert_eq!(chain.miner_contributions.len(), 0);
    assert_eq!(chain.blocks.len(), 2);
    let block = &chain.blocks[1];
    assert_eq!(block.index, 1);
    assert_eq!(block.previous_hash, chain.blocks[0].hash);
    assert_eq!(block.data, "[[\"A\",\"B\",\"10.00000000\",\"1.00000000\",null]]");
    assert_eq!(block.hash, block.calculate_hash());
    assert!(block.hash.starts_with('0'));
    assert_eq!(chain.difficulty, 2);
}

#[test]
fn odd_fee_keeps_the_sum() {
    let mut chain = easy_chain();
    let mut tx = payment("A", "B", "1", "0");
    tx.fee = Amount::from_units(3);
    assert!(chain.create_transaction(tx));
    assert!(chain.mine_pending_transactions("M".to_string()));
    assert_eq!(balance_text(&chain, "LiquidityWallet"), "0.00000001");
    assert_eq!(balance_text(&chain, "RewardsWallet"), "0.00000002");
    assert_eq!(balance_text(&chain, "A"), "98.99999997");
}

#[test]
fn reward_is_split_by_contributions() {
    let mut chain = easy_chain();
    chain.miner_contributions.insert("M1".to_string(), 3);
    chain.miner_contributions.insert("M2".to_string(), 1);
    assert_eq!(chain.total_contributions(), 4);
    chain.distribute_rewards("M1".to_string());
    assert_eq!(balance_text(&chain, "M1"), "37.00000000");
    assert_eq!(balance_text(&chain, "M2"), "3.00000000");
    let sum = chain.get_balance("M1").plus(&chain.get_balance("M2"));
    assert!(sum.equals(&chain.mining_reward));
    assert_eq!(chain.miner_contributions.len(), 0);
    assert_eq!(balance_text(&chain, "A"), "100.00000000");
}

#[test]
fn winner_without_a_count_gets_seven_tenths() {
    let mut chain = easy_chain();
    chain.miner_contributions.insert("M1".to_string(), 1);
    chain.miner_contributions.insert("M2".to_string(), 2);
    chain.miner_contributions.insert("M3".to_string(), 0);
    chain.distribute_rewards("W".to_string());
    assert_eq!(balance_text(&chain, "W"), "28.00000000");
    assert_eq!(balance_text(&chain, "M1"), "4.00000000");
    assert_eq!(balance_text(&chain, "M2"), "8.00000000");
    assert_eq!(balance_text(&chain, "M3"), "0.00000000");
}

#[test]
fn shares_are_rounded_down() {
    let mut chain = easy_chain();
    chain.mining_reward = Amount::from_units(10);
    chain.miner_contributions.insert("M1".to_string(), 1);
    chain.miner_contributions.insert("M2".to_string(), 1);
    chain.distribute_rewards("M1".to_string());
    assert_eq!(balance_text(&chain, "M1"), "0.00000008");
    assert_eq!(balance_text(&chain, "M2"), "0.00000001");
}

#[test]
fn no_contributions_no_reward() {
    let mut chain = easy_chain();
    chain.distribute_rewards("M1".to_string());
    assert_eq!(balance_text(&chain, "M1"), "0.00000000");
    chain.miner_contributions.insert("M2".to_string(), 0);
    chain.distribute_rewards("M1".to_string());
    assert_eq!(balance_text(&chain, "M1"), "0.00000000");
    assert_eq!(chain.miner_contributions.len(), 1);
}

#[test]
fn difficulty_follows_the_block_time() {
    assert_eq!(adjusted_difficulty(2, 300000, 450000, 10), 3);
    assert_eq!(adjusted_difficulty(2, 600000, 450000, 10), 1);
    assert_eq!(adjusted_difficulty(2, 450000, 450000, 10), 2);
    assert_eq!(adjusted_difficulty(10, 0, 450000, 10), 11);
    assert_eq!(adjusted_difficulty(10, 900000, 450000, 10), 9);
    assert_eq!(adjusted_difficulty(11, 0, 450000, 10), 13);
    assert_eq!(adjusted_difficulty(1, 900000, 450000, 10), 1);
    assert_eq!(adjusted_difficulty(0, 900000, 450000, 10), 1);
    assert_eq!(adjusted_difficulty(0, 0, 450000, 10), 0);
    assert_eq!(adjusted_difficulty(usize::MAX, 0, 450000, 10), usize::MAX);
    let mut chain = Blockchain::new();
    chain.adjust_difficulty(300000);
    assert_eq!(chain.difficulty, 3);
    chain.adjust_difficulty(600000);
    assert_eq!(chain.difficulty, 2);
    chain.adjust_difficulty(600000);
    assert_eq!(chain.difficulty, 1);
    chain.adjust_difficulty(450000);
    assert_eq!(chain.difficulty, 1);
}

#[test]
fn prepared_block_holds_the_pool() {
    let mut chain = easy_chain();
    assert!(chain.create_transaction(payment("A", "B", "10", "1")));
    let block = chain.prepare_block(77).expect("a block");
    assert_eq!(block.index, 1);
    assert_eq!(block.timestamp, 77);
    assert_eq!(block.previous_hash, chain.blocks[0].hash);
    assert_eq!(block.nonce, 0);
    assert_eq!(block.hash, block.calculate_hash());
    assert_eq!(block.data, "[[\"A\",\"B\",\"10.00000000\",\"1.00000000\",null]]");
    chain.blocks.clear();
    assert!(chain.prepare_block(77).is_none());
}

#[test]
fn commit_takes_a_mined_block() {
    let mut chain = easy_chain();
    assert!(chain.create_transaction(payment("A", "B", "10", "1")));
    let mut block = chain.prepare_block(5).expect("a block");
    assert!(block.mine_block(chain.difficulty));
    let hash = block.hash.clone();
    assert_eq!(chain.commit_block(block, "M".to_string(), 600000), Ok(()));
    assert_eq!(chain.blocks.len(), 2);
    assert_eq!(chain.blocks[1].hash, hash);
    assert_eq!(chain.difficulty, 1);
    assert_eq!(balance_text(&chain, "A"), "89.00000000");
    assert_eq!(balance_text(&chain, "M"), "40.00000000");
    assert!(chain.pending_transactions.is_empty());
}

#[test]
fn one_block_per_height() {
    let mut chain = easy_chain();
    assert!(chain.create_transaction(payment("A", "B", "10", "1")));
    let mut first = chain.prepare_block(5).expect("a block");
    let mut second = chain.prepare_block(6).expect("a block");
    assert!(first.mine_block(chain.difficulty));
    assert!(second.mine_block(chain.difficulty));
    assert_eq!(chain.commit_block(first, "M1".to_string(), 1), Ok(()));
    let blocks = chain.blocks.len();
    let difficulty = chain.difficulty;
    assert_eq!(chain.commit_block(second, "M2".to_string(), 1), Err(CommitError::Stale));
    assert_eq!(chain.blocks.len(), blocks);
    assert_eq!(chain.difficulty, difficulty);
    assert_eq!(balance_text(&chain, "M1"), "40.00000000");
    assert_eq!(balance_text(&chain, "M2"), "0.00000000");
    assert_eq!(balance_text(&chain, "A"), "89.00000000");
    assert_eq!(balance_text(&chain, "B"), "10.00000000");
    assert!(chain.is_valid() || chain.public_keys.len() == 0);
}

#[test]
fn many_miners_commit_one_block_each_height() {
    let mut chain = easy_chain();
    for height in 1u64..4 {
        let mut candidates: Vec<Block> = Vec::new();
        for miner in 0u128..5 {
            let mut block = chain.prepare_block(miner).expect("a block");
            assert!(block.mine_block(chain.difficulty));
            candidates.push(block);
        }
        let mut taken = 0;
        for (miner, block) in candidates.into_iter().enumerate() {
            if chain.commit_block(block, format!("M{}", miner), 450000).is_ok() {
                taken += 1;
            }
        }
        assert_eq!(taken, 1);
        assert_eq!(chain.blocks.len() as u64, height + 1);
        assert_eq!(chain.blocks[height as usize].index, height);
    }
    assert_eq!(balance_text(&chain, "M0"), "120.00000000");
    assert_eq!(balance_text(&chain, "M1"), "0.00000000");
    assert!(is_chain_linked(&chain.blocks));
}

#[test]
fn commit_refuses_what_does_not_follow() {
    let mut chain = easy_chain();
    let mut block = Block::new(2, 5, chain.blocks[0].hash.clone(), "[]".to_string(), 0);
    assert!(block.mine_block(chain.difficulty));
    assert_eq!(chain.commit_block(block, "M".to_string(), 1), Err(CommitError::Stale));
    let mut block = Block::new(1, 5, "elsewhere".to_string(), "[]".to_string(), 0);
    assert!(block.mine_block(chain.difficulty));
    assert_eq!(chain.commit_block(block, "M".to_string(), 1), Err(CommitError::Stale));
    assert_eq!(chain.blocks.len(), 1);
    assert_eq!(balance_text(&chain, "M"), "0.00000000");
}

#[test]
fn commit_refuses_what_is_not_mined() {
    let mut chain = easy_chain();
    chain.difficulty = 3;
    let mut block = chain.prepare_block(5).expect("a block");
    assert!(block.mine_block(3));
    let mut forged = block.clone();
    forged.nonce += 1;
    assert_eq!(chain.commit_block(forged, "M".to_string(), 1), Err(CommitError::Unmined));
    let mut weak = chain.prepare_block(5).expect("a block");
    assert!(weak.mine_block(0));
    if !weak.hash.starts_with("000") {
        assert_eq!(chain.commit_block(weak, "M".to_string(), 1), Err(CommitError::Unmined));
    }
    assert_eq!(chain.blocks.len(), 1);
    assert_eq!(chain.commit_block(block, "M".to_string(), 1), Ok(()));
}

#[test]
fn commit_refuses_another_pool() {
    let mut chain = easy_chain();
    let mut block = chain.prepare_block(5).expect("a block");
    assert!(block.mine_block(chain.difficulty));
    assert!(chain.create_transaction(payment("A", "B", "10", "1")));
    assert_eq!(chain.commit_block(block, "M".to_string(), 1), Err(CommitError::Mismatch));
    assert_eq!(chain.pending_transactions.len(), 1);
    assert_eq!(chain.blocks.len(), 1);
}

#[test]
fn commit_refuses_an_unfunded_pool() {
    let mut chain = easy_chain();
    chain.pending_transactions.push(payment("A", "B", "60", "0"));
    chain.pending_transactions.push(payment("A", "C", "60", "0"));
    assert!(chain.settle_pool().is_none());
    let mut block = chain.prepare_block(5).expect("a block");
    assert!(block.mine_block(chain.difficulty));
    assert_eq!(chain.commit_block(block, "M".to_string(), 1), Err(CommitError::Unfunded));
    assert_eq!(balance_text(&chain, "A"), "100.00000000");
    assert_eq!(balance_text(&chain, "B"), "0.00000000");
    assert_eq!(chain.pending_transactions.len(), 2);
    assert!(!chain.mine_pending_transactions("M".to_string()));
    assert_eq!(chain.blocks.len(), 1);
    assert_eq!(balance_text(&chain, "M"), "0.00000000");
}

#[test]
fn a_batch_may_spend_what_it_brings() {
    let mut chain = easy_chain();
    chain.pending_transactions.push(payment("A", "B", "60", "0"));
    chain.pending_transactions.push(payment("B", "C", "50", "2"));
    let settled = chain.settle_pool().expect("settled");
    assert_eq!(settled.balance("A").to_text(), "40.00000000");
    assert_eq!(settled.balance("B").to_text(), "8.00000000");
    assert_eq!(settled.balance("C").to_text(), "50.00000000");
    assert_eq!(settled.balance("LiquidityWallet").to_text(), "1.00000000");
    assert_eq!(balance_text(&chain, "A"), "100.00000000");
}

#[test]
fn signed_and_registered_transfers_keep_the_chain_valid() {
    let wallet = Wallet::from_private_key(vec![11; 32]).expect("a key");
    let mut chain = easy_chain();
    chain.store_public_key("A", wallet.public_key.clone());
    assert_eq!(chain.get_public_key("A"), Ok(wallet.public_key.clone()));
    assert_eq!(chain.get_public_key("B"), Err(KeyError::Unregistered));
    let mut tx = payment("A", "B", "10", "1");
    tx.sign(&wallet.private_key).expect("signed");
    assert!(chain.confirms_transaction(&tx));
    assert!(chain.create_transaction(tx));
    assert!(chain.mine_pending_transactions("M".to_string()));
    assert!(chain.is_valid());
    assert!(chain.confirms_block(&chain.blocks[1].data));
    let other = Wallet::from_private_key(vec![12; 32]).expect("a key");
    chain.store_public_key("A", other.public_key.clone());
    assert_eq!(chain.public_keys.len(), 1);
    assert!(!chain.is_valid());
    chain.store_public_key("A", vec![1, 2, 3]);
    assert!(!chain.is_valid());
    chain.store_public_key("A", wallet.public_key.clone());
    assert!(chain.is_valid());
}

#[test]
fn unsigned_or_unregistered_transfers_invalidate_the_chain() {
    let mut chain = easy_chain();
    assert!(chain.create_transaction(payment("A", "B", "10", "1")));
    assert!(chain.mine_pending_transactions("M".to_string()));
    assert!(!chain.is_valid());
    let wallet = Wallet::from_private_key(vec![11; 32]).expect("a key");
    chain.store_public_key("A", wallet.public_key.clone());
    assert!(!chain.is_valid());
    assert!(is_chain_linked(&chain.blocks));
}

#[test]
fn validity_reads_the_balances_of_the_block() {
    let wallet = Wallet::from_private_key(vec![11; 32]).expect("a key");
    let mut chain = easy_chain();
    chain.store_public_key("A", wallet.public_key.clone());
    let mut tx = payment("A", "B", "60", "0");
    tx.sign(&wallet.private_key).expect("signed");
    assert!(chain.create_transaction(tx));
    assert!(chain.mine_pending_transactions("M".to_string()));
    assert_eq!(balance_text(&chain, "A"), "40.00000000");
    assert!(chain.is_valid());
    assert!(!chain.is_confirmed_now());
    assert_eq!(chain.miners, vec!["M".to_string()]);
    assert_eq!(chain.genesis_balances.balance("A").to_text(), "100.00000000");
    chain.balances.credit("A", &coins(20));
    assert!(!chain.is_valid());
    assert!(chain.is_confirmed_now());
    assert!(chain.balances.debit("A", &coins(20)));
    assert!(chain.is_valid());
    chain.miners[0] = "N".to_string();
    assert!(!chain.is_valid());
    chain.miners[0] = "M".to_string();
    chain.genesis_balances.credit("A", &coins(1));
    assert!(!chain.is_valid());
}

#[test]
fn first_balances_are_given_before_the_first_block() {
    let wallet = Wallet::from_private_key(vec![11; 32]).expect("a key");
    let mut chain = Blockchain::new();
    chain.difficulty = 1;
    assert!(chain.allocate("A", &coins(100)));
    assert_eq!(balance_text(&chain, "A"), "100.00000000");
    assert!(chain.is_valid());
    chain.store_public_key("A", wallet.public_key.clone());
    let mut tx = payment("A", "B", "60", "0");
    tx.sign(&wallet.private_key).expect("signed");
    assert!(chain.create_transaction(tx));
    assert!(!chain.allocate("A", &coins(1)));
    assert!(chain.mine_pending_transactions("M".to_string()));
    assert_eq!(balance_text(&chain, "A"), "40.00000000");
    assert!(chain.is_valid());
    assert!(!chain.allocate("A", &coins(1)));
    assert_eq!(balance_text(&chain, "A"), "40.00000000");
}

#[test]
fn other_shares_are_taken_from_the_config() {
    let mut first: AddressMap<Amount> = AddressMap::new();
    first.credit("A", &coins(100));
    let mut settings = config(0, first);
    settings.liquidity_fee_percent = 25;
    settings.winner_reward_percent = 100;
    settings.adjustment_percent = 50;
    let mut chain = Blockchain::with_config(settings);
    chain.difficulty = 4;
    assert!(chain.create_transaction(payment("A", "B", "10", "1")));
    chain.miner_contributions.insert("N".to_string(), 3);
    let mut block = chain.prepare_block(5).expect("a block");
    assert!(block.mine_block(4));
    assert_eq!(chain.commit_block(block, "M".to_string(), 0), Ok(()));
    assert_eq!(balance_text(&chain, "LiquidityWallet"), "0.25000000");
    assert_eq!(balance_text(&chain, "RewardsWallet"), "0.75000000");
    assert_eq!(balance_text(&chain, "M"), "40.00000000");
    assert_eq!(balance_text(&chain, "N"), "0.00000000");
    assert_eq!(chain.difficulty, 6);
    chain.adjust_difficulty(900000);
    assert_eq!(chain.difficulty, 3);
    chain.adjustment_percent = 200;
    chain.adjust_difficulty(900000);
    assert_eq!(chain.difficulty, 1);
    chain.adjust_difficulty(0);
    assert_eq!(chain.difficulty, 2);
    assert_eq!(adjusted_difficulty(7, 0, 1, 0), 7);
    assert_eq!(adjusted_difficulty(7, 2, 1, 0), 7);
    assert_eq!(Amount::from_units(10).hundredths(33).to_text(), "0.00000003");
    assert_eq!(Amount::from_units(10).hundredths(250).to_text(), "0.00000010");
}

#[test]
fn an_unsettled_pool_is_dropped_on_demand() {
    let mut chain = easy_chain();
    assert!(chain.create_transaction(payment("A", "B", "10", "1")));
    assert!(!chain.drop_unsettled_pool());
    assert_eq!(chain.pending_transactions.len(), 1);
    chain.pending_transactions.push(payment("A", "C", "95", "0"));
    assert!(chain.drop_unsettled_pool());
    assert!(chain.pending_transactions.is_empty());
    assert!(!chain.drop_unsettled_pool());
    assert_eq!(balance_text(&chain, "A"), "100.00000000");
}

#[test]
fn every_block_mints_the_whole_reward() {
    let mut chain = easy_chain();
    chain.mining_reward = Amount::from_units(19);
    chain.difficulty = 0;
    let mut supply = chain.balances.total_supply();
    for round in 0..4 {
        assert!(chain.create_transaction(payment("A", "B", "1", "0.00000003")));
        assert!(chain.mine_pending_transactions(format!("M{}", round % 2)));
        supply = supply.plus(&chain.mining_reward);
        assert!(chain.balances.total_supply().equals(&supply));
        assert_eq!(chain.miner_contributions.len(), 0);
    }
    assert_eq!(chain.blocks.len(), 5);
    for height in 1..5 {
        assert_eq!(chain.blocks[height].index, chain.blocks[height - 1].index + 1);
        assert_eq!(chain.blocks[height].previous_hash, chain.blocks[height - 1].hash);
    }
    assert_eq!(balance_text(&chain, "M0"), "0.00000038");
}

#[test]
fn address_map_keeps_one_value_per_address() {
    let mut map: AddressMap<u64> = AddressMap::new();
    assert_eq!(map.len(), 0);
    assert_eq!(map.get("a"), None);
    map.insert("a".to_string(), 1);
    map.insert("b".to_string(), 2);
    map.insert("a".to_string(), 3);
    assert_eq!(map.len(), 2);
    assert_eq!(map.get("a"), Some(&3));
    assert_eq!(map.get("b"), Some(&2));
    assert_eq!(map.position("b"), Some(1));
    assert_eq!(map.position("c"), None);
    assert_eq!(map.address_at(0), "a");
    assert_eq!(*map.value_at(1), 2);
    map.clear();
    assert_eq!(map.len(), 0);
}

#[test]
fn balances_move_by_credit_and_debit() {
    let mut chain = easy_chain();
    chain.balances.credit("B", &coins(5));
    chain.balances.credit("B", &coins(5));
    assert_eq!(balance_text(&chain, "B"), "10.00000000");
    assert!(chain.balances.debit("B", &coins(4)));
    assert_eq!(balance_text(&chain, "B"), "6.00000000");
    assert!(!chain.balances.debit("B", &coins(7)));
    assert!(!chain.balances.debit("C", &coins(1)));
    assert_eq!(balance_text(&chain, "B"), "6.00000000");
    let copy = chain.balances.duplicate();
    chain.balances.credit("B", &coins(1));
    assert_eq!(copy.balance("B").to_text(), "6.00000000");
    assert_eq!(copy.balance("A").to_text(), "100.00000000");
    assert_eq!(copy.len(), chain.balances.len());
}

#[test]
fn contributions_are_counted() {
    let mut chain = easy_chain();
    chain.record_contribution("M");
    chain.record_contribution("M");
    chain.record_contribution("N");
    assert_eq!(chain.miner_contributions.get("M"), Some(&2));
    assert_eq!(chain.miner_contributions.get("N"), Some(&1));
    assert_eq!(chain.total_contributions(), 3);
    chain.miner_contributions.insert("M".to_string(), u64::MAX);
    chain.record_contribution("M");
    assert_eq!(chain.miner_contributions.get("M"), Some(&u64::MAX));
    assert_eq!(chain.total_contributions(), u128::from(u64::MAX) + 1);
}

#[test]
fn transfers_keep_the_supply_and_a_block_adds_the_reward() {
    let mut chain = easy_chain();
    assert_eq!(chain.balances.total_supply().to_text(), "100.00000000");
    assert!(chain.create_transaction(payment("A", "B", "10", "1")));
    assert!(chain.create_transaction(payment("A", "C", "0.5", "0.00000003")));
    let settled = chain.settle_pool().expect("settled");
    assert_eq!(settled.total_supply().to_text(), "100.00000000");
    assert!(chain.mine_pending_transactions("M".to_string()));
    assert_eq!(chain.balances.total_supply().to_text(), "140.00000000");
    assert!(chain.mine_pending_transactions("A".to_string()));
    assert_eq!(chain.balances.total_supply().to_text(), "180.00000000");
    let empty = Blockchain::with_config(config(0, AddressMap::new()));
    assert!(empty.balances.total_supply().is_zero());
    assert_eq!(empty.blocks[0].nonce, 0);
}

#[test]
fn rounded_shares_leave_a_remainder_unpaid() {
    let mut chain = easy_chain();
    chain.mining_reward = Amount::from_units(10);
    chain.miner_contributions.insert("M1".to_string(), 1);
    chain.miner_contributions.insert("M2".to_string(), 1);
    chain.miner_contributions.insert("M3".to_string(), 1);
    chain.distribute_rewards("M1".to_string());
    assert_eq!(chain.balances.total_supply().to_text(), "100.00000010");
    chain.mining_reward = Amount::from_units(19);
    for miner in ["M1", "M2", "M3", "M4"] {
        chain.miner_contributions.insert(miner.to_string(), 1);
    }
    chain.distribute_rewards("M1".to_string());
    assert_eq!(chain.balances.total_supply().to_text(), "100.00000027");
}

#[test]
fn mined_block_carries_the_time_of_its_start() {
    let mut chain = easy_chain();
    assert!(chain.mine_pending_transactions("M".to_string()));
    assert!(chain.blocks[1].timestamp > 1600000000000);
    assert!(chain.blocks[1].timestamp < 100000000000000);
}

fn signed(wallet: &Wallet, sender: &str, receiver: &str, amount: &str, fee: &str) -> Transaction {
    let mut tx = payment(sender, receiver, amount, fee);
    tx.sign(&wallet.private_key).expect("signed");
    tx
}

#[test]
fn a_chain_of_signed_transfers_replays_to_its_balances() {
    let alice = Wallet::from_private_key(vec![21; 32]).expect("a key");
    let bob = Wallet::from_private_key(vec![22; 32]).expect("a key");
    let mut chain = easy_chain();
    let genesis = chain.balances.duplicate();
    chain.store_public_key("A", alice.public_key.clone());
    chain.store_public_key("B", bob.public_key.clone());
    assert!(chain.is_valid_by_replay(&genesis, &Vec::new()));
    assert!(chain.create_transaction(signed(&alice, "A", "B", "90", "1")));
    assert!(chain.mine_pending_transactions("M1".to_string()));
    assert!(chain.create_transaction(signed(&bob, "B", "A", "50", "0.5")));
    assert!(chain.create_transaction(signed(&bob, "B", "M2", "1", "0")));
    assert!(chain.mine_pending_transactions("M2".to_string()));
    let miners = vec!["M1".to_string(), "M2".to_string()];
    assert!(chain.is_valid_by_replay(&genesis, &miners));
    assert!(chain.is_valid());
    assert_eq!(chain.miners, miners);
    assert!(!chain.is_confirmed_now());
    let replayed = chain.replay(&genesis, &miners).expect("replayed");
    assert!(replayed.same_as(&chain.balances));
    assert_eq!(replayed.balance("A").to_text(), "59.00000000");
    assert_eq!(replayed.balance("B").to_text(), "38.50000000");
    assert_eq!(replayed.balance("M1").to_text(), "40.00000000");
    assert_eq!(replayed.balance("M2").to_text(), "41.00000000");
}

#[test]
fn replay_refuses_another_history() {
    let alice = Wallet::from_private_key(vec![21; 32]).expect("a key");
    let mut chain = easy_chain();
    let genesis = chain.balances.duplicate();
    chain.store_public_key("A", alice.public_key.clone());
    assert!(chain.create_transaction(signed(&alice, "A", "B", "90", "1")));
    assert!(chain.mine_pending_transactions("M1".to_string()));
    let miners = vec!["M1".to_string()];
    assert!(chain.is_valid_by_replay(&genesis, &miners));
    assert!(!chain.is_valid_by_replay(&genesis, &vec!["M2".to_string()]));
    assert!(!chain.is_valid_by_replay(&genesis, &Vec::new()));
    assert!(!chain.is_valid_by_replay(&genesis, &vec!["M1".to_string(), "M1".to_string()]));
    let mut poorer = genesis.duplicate();
    assert!(poorer.debit("A", &coins(50)));
    assert!(!chain.is_valid_by_replay(&poorer, &miners));
    assert!(chain.replay(&poorer, &miners).is_none());
    let mut richer = genesis.duplicate();
    richer.credit("A", &coins(1));
    assert!(!chain.is_valid_by_replay(&richer, &miners));
    assert!(chain.replay(&richer, &miners).is_some());
    chain.balances.credit("B", &coins(1));
    assert!(!chain.is_valid_by_replay(&genesis, &miners));
    assert!(chain.balances.debit("B", &coins(1)));
    assert!(chain.is_valid_by_replay(&genesis, &miners));
    chain.blocks[1].previous_hash = "corrupted".to_string();
    assert!(!chain.is_valid_by_replay(&genesis, &miners));
}

#[test]
fn replay_refuses_what_is_not_authentic() {
    let alice = Wallet::from_private_key(vec![21; 32]).expect("a key");
    let mut chain = easy_chain();
    let genesis = chain.balances.duplicate();
    assert!(chain.create_transaction(signed(&alice, "A", "B", "90", "1")));
    assert!(chain.mine_pending_transactions("M1".to_string()));
    let miners = vec!["M1".to_string()];
    assert!(!chain.is_valid_by_replay(&genesis, &miners));
    chain.store_public_key("A", alice.public_key.clone());
    assert!(chain.is_valid_by_replay(&genesis, &miners));
    let mut unsigned = easy_chain();
    assert!(unsigned.create_transaction(payment("A", "B", "90", "1")));
    assert!(unsigned.mine_pending_transactions("M1".to_string()));
    unsigned.store_public_key("A", alice.public_key.clone());
    assert!(!unsigned.is_valid_by_replay(&genesis, &miners));
    assert!(!unsigned.authenticates(&payment("A", "B", "1", "0")));
    assert!(unsigned.authenticates(&signed(&alice, "A", "B", "1", "0")));
    assert!(!unsigned.authenticates(&signed(&alice, "B", "A", "1", "0")));
}

#[test]
fn ledgers_compare_by_balance() {
    let mut first = easy_chain().balances;
    let mut second = first.duplicate();
    assert!(first.same_as(&second));
    second.credit("Nobody", &Amount::zero());
    assert!(first.same_as(&second));
    assert!(second.same_as(&first));
    second.credit("B", &coins(1));
    assert!(!first.same_as(&second));
    assert!(!second.same_as(&first));
    first.credit("B", &coins(1));
    assert!(first.same_as(&second));
    assert!(first.debit("A", &coins(1)));
    assert!(!first.same_as(&second));
}

#[test]
fn without_difficulty_the_pool_is_always_mined() {
    let mut chain = easy_chain();
    chain.difficulty = 0;
    assert!(chain.create_transaction(payment("A", "B", "10", "1")));
    assert!(chain.mine_pending_transactions("M".to_string()));
    assert_eq!(chain.blocks[1].nonce, 0);
    assert_eq!(chain.difficulty, 0);
    assert!(chain.mine_pending_transactions("M".to_string()));
    assert_eq!(chain.blocks.len(), 3);
}

#[test]
fn the_pool_is_mined_with_the_first_nonce() {
    let mut chain = easy_chain();
    chain.difficulty = 2;
    assert!(chain.create_transaction(payment("A", "B", "10", "1")));
    assert!(chain.mine_pending_transactions("M".to_string()));
    let mined = chain.blocks[1].clone();
    assert!(mined.hash.starts_with("00"));
    for nonce in 0..mined.nonce {
        let other = Block::new(
            mined.index,
            mined.timestamp,
            mined.previous_hash.clone(),
            mined.data.clone(),
            nonce,
        );
        assert!(!other.hash.starts_with("00"));
    }
}

#[test]
fn what_cannot_be_mined_leaves_the_ledger() {
    let mut chain = easy_chain();
    chain.difficulty = 65;
    assert!(chain.create_transaction(payment("A", "B", "10", "1")));
    assert!(!chain.mine_pending_transactions("M".to_string()));
    assert_eq!(chain.blocks.len(), 1);
    assert_eq!(chain.pending_transactions.len(), 1);
    assert_eq!(chain.difficulty, 65);
    assert_eq!(balance_text(&chain, "A"), "100.00000000");
    assert_eq!(balance_text(&chain, "M"), "0.00000000");
    chain.blocks.clear();
    chain.difficulty = 0;
    assert!(!chain.mine_pending_transactions("M".to_string()));
    assert_eq!(chain.pending_transactions.len(), 1);
}
