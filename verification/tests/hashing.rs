use infinimath::block::Block;
use infinimath::digest::has_leading_zeros;
use infinimath::digest::sha256_hex_string;
use infinimath::digest::sha3_256_hex_string;
use infinimath::text::decimal_string;
use infinimath::text::hex_string;
use infinimath::text::push_field;
use infinimath::text::same_text;

#[test]
fn sha256_of_abc() {
    assert_eq!(
        sha256_hex_string("abc"),
        "ba7816bf8f01cfea414140de5dae2223b00361a396177a9cb410ff61f20015ad"
    );
}

#[test]
fn sha3_256_of_abc() {
    assert_eq!(
        sha3_256_hex_string("abc"),
        "3a985da74fe225b2045c172d6bd390bd855f086e3e9d525b46bfe24511431532"
    );
}

#[test]
fn hex_of_bytes() {
    assert_eq!(hex_string(&vec![0x00, 0x0f, 0xa0, 0xff]), "000fa0ff");
    assert_eq!(hex_string(&Vec::new()), "");
}

#[test]
fn decimal_numerals() {
    assert_eq!(decimal_string(0), "0");
    assert_eq!(decimal_string(7), "7");
    assert_eq!(decimal_string(1234567890), "1234567890");
    assert_eq!(decimal_string(u128::MAX), u128::MAX.to_string());
}

#[test]
fn leading_zeros_are_counted() {
    assert!(has_leading_zeros("00ab", 0));
    assert!(has_leading_zeros("00ab", 2));
    assert!(!has_leading_zeros("00ab", 3));
    assert!(!has_leading_zeros("00", 3));
}

#[test]
fn new_block_is_sealed() {
    let block = Block::new(0, 0, "0".to_string(), "Genesis Block".to_string(), 0);
    assert_eq!(block.hash, block.calculate_hash());
    assert_eq!(block.hash, sha256_hex_string("1:01:01:013:Genesis Block1:0"));
    assert_eq!(block.hash.len(), 64);
}

#[test]
fn mined_block_meets_difficulty() {
    let mut block = Block::new(1, 17, "abc".to_string(), "payload".to_string(), 0);
    assert!(block.mine_block(2));
    assert!(block.hash.starts_with("00"));
    assert_eq!(block.hash, block.calculate_hash());
    let winner = block.nonce;
    for nonce in 0..winner {
        let other = Block::new(1, 17, "abc".to_string(), "payload".to_string(), nonce);
        assert!(!other.hash.starts_with("00"));
    }
}

#[test]
fn difficulty_zero_keeps_nonce_zero() {
    let mut block = Block::new(3, 5, "p".to_string(), "d".to_string(), 9);
    assert!(block.mine_block(0));
    assert_eq!(block.nonce, 0);
    assert_eq!(block.hash, block.calculate_hash());
}

#[test]
fn difficulty_beyond_the_hash_is_refused() {
    let mut block = Block::new(3, 5, "p".to_string(), "d".to_string(), 9);
    let before = block.clone();
    assert!(!block.mine_block(65));
    assert_eq!(block.nonce, before.nonce);
    assert_eq!(block.hash, before.hash);
}

#[test]
fn digits_that_move_between_fields_change_the_hash() {
    let first = Block::new(1, 23, "".to_string(), "".to_string(), 4);
    let second = Block::new(12, 3, "".to_string(), "".to_string(), 4);
    assert_ne!(first.calculate_hash(), second.calculate_hash());
    assert_eq!(first.hash, sha256_hex_string("1:12:230:0:1:4"));
    assert_eq!(second.hash, sha256_hex_string("2:121:30:0:1:4"));
    let third = Block::new(1, 2, "ab".to_string(), "c".to_string(), 0);
    let fourth = Block::new(1, 2, "a".to_string(), "bc".to_string(), 0);
    assert_ne!(third.hash, fourth.hash);
}

#[test]
fn fields_are_written_with_their_length() {
    let mut out = String::from("x");
    push_field(&mut out, "héllo");
    push_field(&mut out, "");
    assert_eq!(out, "x5:héllo0:");
    assert!(same_text("abc", "abc"));
    assert!(!same_text("abc", "abd"));
    assert!(!same_text("abc", "ab"));
}
