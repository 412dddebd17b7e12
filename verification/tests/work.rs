use infinimath::natural::Natural;
use infinimath::subchain::SubChain;
use infinimath::subchain_pow::calculate_subchain_hash;
use infinimath::utils::primex;
use infinimath::work::PiOracle;
use infinimath::work::PrimeOracle;
use infinimath::work::WorkOracle;

fn prime_oracle() -> PrimeOracle {
    PrimeOracle { witnesses: [2u128, 3, 5, 7].iter().map(|w| Natural::from_u128(*w)).collect() }
}

#[test]
fn prime_oracle_produces_the_next_prime() {
    let oracle = prime_oracle();
    assert_eq!(oracle.produce_next("Genesis Block", 1), Some("3".to_string()));
    assert_eq!(oracle.produce_next("3", 2), Some("5".to_string()));
    assert_eq!(oracle.produce_next("13", 9), Some("17".to_string()));
    assert_eq!(oracle.produce_next("1000000000000", 1), Some("1000000000039".to_string()));
    assert_eq!(oracle.produce_next("0", 1), Some("2".to_string()));
}

#[test]
fn prime_oracle_checks_a_claimed_prime() {
    let oracle = prime_oracle();
    assert!(oracle.verify("7", 4, "11"));
    assert!(!oracle.verify("7", 4, "13"));
    assert!(!oracle.verify("7", 4, "9"));
    assert!(!oracle.verify("7", 4, "7"));
    assert!(!oracle.verify("7", 4, "011"));
    assert!(!oracle.verify("7", 4, "eleven"));
    assert!(oracle.verify("no number", 4, "3"));
}

#[test]
fn fixed_search_agrees_with_the_check() {
    let witnesses = prime_oracle().witnesses;
    let found = primex::find_next_prime_with(&Natural::from_u128(89), &witnesses).expect("a prime");
    assert_eq!(found.to_text(), "97");
    assert!(primex::is_next_prime_with(&Natural::from_u128(89), &found, &witnesses));
    let weak: Vec<Natural> = vec![Natural::from_u128(2)];
    let fooled = primex::find_next_prime_with(&Natural::from_u128(2046), &weak).expect("a number");
    assert_eq!(fooled.to_text(), "2047");
}

#[test]
fn pi_oracle_reads_the_table() {
    let oracle = PiOracle {};
    assert_eq!(oracle.produce_next("anything", 0), Some("1".to_string()));
    assert_eq!(oracle.produce_next("anything", 1), Some("4".to_string()));
    assert_eq!(oracle.produce_next("anything", 38), Some("7".to_string()));
    assert_eq!(oracle.produce_next("anything", 39), None);
    assert!(oracle.verify("", 2, "1"));
    assert!(!oracle.verify("", 2, "4"));
    assert!(!oracle.verify("", 2, "01"));
    assert!(!oracle.verify("", 39, "7"));
}

#[test]
fn chain_of_primes_is_extended_and_checked() {
    let oracle = prime_oracle();
    let mut chain = SubChain::with_genesis_at(10);
    for timestamp in 11..15 {
        assert!(chain.extend(&oracle, timestamp, 1));
    }
    let results: Vec<&str> = chain.blocks.iter().map(|b| b.result.as_str()).collect();
    assert_eq!(results, ["Genesis Block", "3", "5", "7", "11"]);
    for (i, block) in chain.blocks.iter().enumerate() {
        assert_eq!(block.block_number, i as u64);
        assert_eq!(block.hash, calculate_subchain_hash(block));
        if i > 0 {
            assert_eq!(block.prev_block_hash, chain.blocks[i - 1].hash);
            assert!(block.hash.starts_with('0'));
            assert_eq!(block.timestamp, 10 + i as u64);
        }
    }
    assert!(chain.is_valid(&oracle));
    assert!(!chain.is_valid(&PiOracle {}));
    chain.blocks[3].result = "9".to_string();
    assert!(!chain.is_valid(&oracle));
    chain.blocks[3].hash = calculate_subchain_hash(&chain.blocks[3]);
    chain.blocks[4].prev_block_hash = chain.blocks[3].hash.clone();
    chain.blocks[4].hash = calculate_subchain_hash(&chain.blocks[4]);
    assert!(!chain.is_valid(&oracle));
    chain.blocks[3].result = "7".to_string();
    assert!(!chain.is_valid(&oracle));
    chain.blocks[3].hash = calculate_subchain_hash(&chain.blocks[3]);
    chain.blocks[4].prev_block_hash = chain.blocks[3].hash.clone();
    chain.blocks[4].hash = calculate_subchain_hash(&chain.blocks[4]);
    assert!(chain.is_valid(&oracle));
    chain.blocks[2].prev_block_hash = "elsewhere".to_string();
    assert!(!chain.is_valid(&oracle));
}

#[test]
fn chain_of_digits_ends_with_the_table() {
    let oracle = PiOracle {};
    let mut chain = SubChain::with_genesis_at(10);
    for _ in 1..39 {
        assert!(chain.extend(&oracle, 11, 0));
    }
    assert_eq!(chain.blocks.len(), 39);
    let digits: String = chain.blocks[1..].iter().map(|b| b.result.as_str()).collect();
    assert_eq!(digits, "41592653589793238462643383279502884197");
    assert!(chain.is_valid(&oracle));
    assert!(!chain.extend(&oracle, 11, 0));
    assert_eq!(chain.blocks.len(), 39);
    assert!(!chain.extend(&oracle, 11, 200));
}

#[test]
fn nothing_extends_an_empty_chain() {
    let mut chain = SubChain::with_genesis_at(10);
    chain.blocks.clear();
    assert!(!chain.extend(&PiOracle {}, 11, 0));
    assert!(chain.blocks.is_empty());
    assert!(chain.is_valid(&PiOracle {}));
    let mut one = SubChain::with_genesis_at(10);
    assert!(!one.extend(&prime_oracle(), 11, 65));
    assert_eq!(one.blocks.len(), 1);
}

#[test]
fn a_chain_is_extended_with_the_first_nonce() {
    let oracle = prime_oracle();
    let mut chain = SubChain::with_genesis_at(10);
    assert!(chain.extend(&oracle, 11, 2));
    let mined = chain.blocks[1].clone();
    assert!(mined.hash.starts_with("00"));
    for nonce in 0..mined.nonce {
        let mut other = mined.clone();
        other.nonce = nonce;
        assert!(!calculate_subchain_hash(&other).starts_with("00"));
    }
    let mut easy = SubChain::with_genesis_at(10);
    assert!(easy.extend(&oracle, 11, 0));
    assert_eq!(easy.blocks[1].nonce, 0);
}

#[test]
fn a_prime_result_reads_back_as_the_next_number() {
    let oracle = prime_oracle();
    let first = oracle.next_result("Genesis Block").expect("a result");
    assert_eq!(first, "3");
    let second = oracle.next_result(&first).expect("a result");
    assert_eq!(second, "5");
    let read = Natural::parse(&second).expect("a number");
    assert!(Natural::parse(&first).expect("a number").is_below(&read));
    assert_eq!(read.to_text(), second);
    assert_eq!(oracle.produce_next(&second, 3), oracle.next_result(&second));
}
