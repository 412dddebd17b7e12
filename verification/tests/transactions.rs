use infinimath::amount::Amount;
use infinimath::transaction::decode_batch;
use infinimath::transaction::encode_batch;
use infinimath::blockchain::Blockchain;
use infinimath::transaction::Transaction;
use infinimath::digest::sha3_256_hex_string;
use infinimath::wallet::sign_message;
use infinimath::wallet::verify_message;
use infinimath::wallet::KeyError;
use infinimath::wallet::OptionalSerializableSignature;
use infinimath::wallet::SerializableSignature;
use infinimath::wallet::Wallet;

fn transfer(sender: &str, receiver: &str, amount: &str, fee: &str) -> Transaction {
    Transaction {
        sender: sender.to_string(),
        receiver: receiver.to_string(),
        amount: Amount::parse(amount).expect("an amount"),
        fee: Amount::parse(fee).expect("a fee"),
        signature: OptionalSerializableSignature(None),
    }
}

fn fixed_wallet(fill: u8) -> Wallet {
    Wallet::from_private_key(vec![fill; 32]).expect("a key")
}

#[test]
fn well_formed_needs_names_and_an_amount() {
    assert!(transfer("A", "B", "10", "1").is_well_formed());
    assert!(transfer("A", "B", "0.00000001", "0").is_well_formed());
    assert!(!transfer("", "B", "10", "1").is_well_formed());
    assert!(!transfer("A", "", "10", "1").is_well_formed());
    assert!(!transfer("A", "B", "0", "1").is_well_formed());
}

#[test]
fn hash_is_taken_of_the_four_fields() {
    let tx = transfer("Alice", "Bob", "10", "0.5");
    assert_eq!(tx.hash(), sha3_256_hex_string("5:Alice3:Bob11:10.0000000010:0.50000000"));
    assert_eq!(tx.hash().len(), 64);
}

#[test]
fn equal_fields_give_equal_hashes() {
    let a = transfer("Alice", "Bob", "10", "1");
    let mut b = transfer("Alice", "Bob", "10.0", "1.00");
    assert_eq!(a.hash(), b.hash());
    b.sign(&fixed_wallet(7).private_key).expect("signed");
    assert_eq!(a.hash(), b.hash());
    assert_eq!(a.clone().hash(), a.hash());
}

#[test]
fn each_field_changes_the_hash() {
    let base = transfer("Alice", "Bob", "10", "1").hash();
    assert_ne!(transfer("Alicia", "Bob", "10", "1").hash(), base);
    assert_ne!(transfer("Alice", "Rob", "10", "1").hash(), base);
    assert_ne!(transfer("Alice", "Bob", "11", "1").hash(), base);
    assert_ne!(transfer("Alice", "Bob", "10", "2").hash(), base);
}

#[test]
fn signed_transaction_verifies() {
    let wallet = Wallet::new();
    let mut tx = transfer("Alice", "Bob", "10", "1");
    assert_eq!(tx.verify(&wallet.public_key), Ok(false));
    assert_eq!(tx.sign(&wallet.private_key), Ok(()));
    assert!(tx.signature.0.is_some());
    assert_eq!(tx.verify(&wallet.public_key), Ok(true));
}

#[test]
fn tampered_amount_does_not_verify() {
    let wallet = fixed_wallet(9);
    let mut tx = transfer("Alice", "Bob", "10", "1");
    tx.sign(&wallet.private_key).expect("signed");
    tx.amount = Amount::parse("1000").expect("an amount");
    assert_eq!(tx.verify(&wallet.public_key), Ok(false));
    tx.amount = Amount::parse("10").expect("an amount");
    assert_eq!(tx.verify(&wallet.public_key), Ok(true));
    tx.receiver = "Mallory".to_string();
    assert_eq!(tx.verify(&wallet.public_key), Ok(false));
}

#[test]
fn another_key_does_not_verify() {
    let signer = fixed_wallet(1);
    let other = fixed_wallet(2);
    let mut tx = transfer("Alice", "Bob", "10", "1");
    tx.sign(&signer.private_key).expect("signed");
    assert_eq!(tx.verify(&other.public_key), Ok(false));
    assert_eq!(tx.verify(&signer.public_key), Ok(true));
}

#[test]
fn signing_is_deterministic() {
    let wallet = fixed_wallet(3);
    let mut a = transfer("Alice", "Bob", "10", "1");
    let mut b = transfer("Alice", "Bob", "10", "1");
    a.sign(&wallet.private_key).expect("signed");
    b.sign(&wallet.private_key).expect("signed");
    let first = a.signature.0.expect("a signature").0;
    let second = b.signature.0.expect("a signature").0;
    assert_eq!(first, second);
    assert_ne!(first, wallet.private_key);
    assert_eq!(first[0], 0x30);
}

#[test]
fn malformed_keys_are_errors() {
    let mut tx = transfer("Alice", "Bob", "10", "1");
    let before = tx.hash();
    assert_eq!(tx.sign(&[0u8; 32]), Err(KeyError::Malformed));
    assert_eq!(tx.sign(&[1u8; 5]), Err(KeyError::Malformed));
    assert!(tx.signature.0.is_none());
    assert_eq!(tx.hash(), before);
    tx.sign(&fixed_wallet(4).private_key).expect("signed");
    assert_eq!(tx.verify(&[4u8; 65]), Err(KeyError::Malformed));
    assert_eq!(tx.verify(&[]), Err(KeyError::Malformed));
}

#[test]
fn malformed_signature_is_not_an_error() {
    let wallet = fixed_wallet(5);
    let mut tx = transfer("Alice", "Bob", "10", "1");
    tx.signature = OptionalSerializableSignature(Some(SerializableSignature(vec![1, 2, 3])));
    assert_eq!(tx.verify(&wallet.public_key), Ok(false));
    let unsigned = transfer("Alice", "Bob", "10", "1");
    assert_eq!(unsigned.verify(&[]), Ok(false));
}

#[test]
fn messages_are_signed_and_checked() {
    let wallet = fixed_wallet(6);
    let signature = sign_message(&wallet.private_key, "hello").expect("signed");
    assert_eq!(verify_message(&wallet.public_key, "hello", &signature), Ok(true));
    assert_eq!(verify_message(&wallet.public_key, "hullo", &signature), Ok(false));
    assert_eq!(verify_message(&[9u8; 33], "hello", &signature), Err(KeyError::Malformed));
    assert_eq!(sign_message(&[], "hello"), Err(KeyError::Malformed));
}

#[test]
fn validate_reads_the_committed_balance() {
    let mut chain = Blockchain::new();
    chain.balances.credit("A", &Amount::from_coins(100));
    assert!(transfer("A", "B", "10", "1").validate(&chain));
    assert!(transfer("A", "B", "99", "1").validate(&chain));
    assert!(!transfer("A", "B", "95", "10").validate(&chain));
    assert!(!transfer("Nobody", "B", "1", "0").validate(&chain));
    assert!(!transfer("A", "", "1", "0").validate(&chain));
}

#[test]
fn batch_is_written_as_json_arrays() {
    let mut signed = transfer("C", "D", "0.5", "0");
    signed.signature = OptionalSerializableSignature(Some(SerializableSignature(vec![1, 2, 255])));
    let batch = vec![transfer("A\"x", "B", "10", "1"), signed];
    assert_eq!(
        encode_batch(&batch),
        "[[\"A\\\"x\",\"B\",\"10.00000000\",\"1.00000000\",null],[\"C\",\"D\",\"0.50000000\",\"0.00000000\",[1,2,255]]]"
    );
    assert_eq!(encode_batch(&Vec::new()), "[]");
}

#[test]
fn batch_round_trips() {
    let mut signed = transfer("C", "D", "0.5", "0");
    signed.sign(&fixed_wallet(8).private_key).expect("signed");
    let batch = vec![transfer("A", "B", "10", "1"), signed];
    let back = decode_batch(&encode_batch(&batch)).expect("a batch");
    assert_eq!(back.len(), 2);
    for (a, b) in batch.iter().zip(back.iter()) {
        assert_eq!(a.sender, b.sender);
        assert_eq!(a.receiver, b.receiver);
        assert!(a.amount.equals(&b.amount));
        assert!(a.fee.equals(&b.fee));
        assert_eq!(a.signature.0.as_ref().map(|s| s.0.clone()), b.signature.0.as_ref().map(|s| s.0.clone()));
    }
    assert_eq!(back[1].verify(&fixed_wallet(8).public_key), Ok(true));
}

#[test]
fn what_is_no_batch_is_refused() {
    assert!(decode_batch("Genesis Block").is_none());
    assert!(decode_batch("[[\"A\",\"B\",\"ten\",\"1\",null]]").is_none());
    assert!(decode_batch("[[\"A\",\"B\",\"10\",\"-1\",null]]").is_none());
    assert!(decode_batch("[[\"A\",\"B\",\"10\"]]").is_none());
    assert_eq!(decode_batch("[]").expect("a batch").len(), 0);
    let read = decode_batch(" [ [\"A\", \"B\", \"10\", \"1\", null] ] ").expect("a batch");
    assert!(read[0].amount.equals(&Amount::from_coins(10)));
}

#[test]
fn records_stand_for_transactions() {
    let tx = transfer("A", "B", "10", "1");
    let record = tx.to_record();
    assert_eq!(record.0, "A");
    assert_eq!(record.2, "10.00000000");
    assert_eq!(record.4, None);
    let back = Transaction::from_record(&record).expect("a transaction");
    assert_eq!(back.hash(), tx.hash());
    let bad = ("A".to_string(), "B".to_string(), "x".to_string(), "1".to_string(), None);
    assert!(Transaction::from_record(&bad).is_none());
}

#[test]
fn wallets_hold_a_key_pair() {
    let wallet = Wallet::new();
    assert_eq!(wallet.private_key.len(), 32);
    assert_eq!(wallet.public_key.len(), 65);
    assert_eq!(wallet.public_key[0], 4);
    let again = Wallet::from_private_key(wallet.private_key.clone()).expect("a key");
    assert_eq!(again.public_key, wallet.public_key);
    assert_ne!(Wallet::new().private_key, wallet.private_key);
    assert_eq!(Wallet::from_private_key(vec![0; 32]).err(), Some(KeyError::Malformed));
    assert_eq!(wallet.clone().public_key, wallet.public_key);
}

#[test]
fn addresses_come_from_the_public_key() {
    let a = fixed_wallet(1);
    let b = fixed_wallet(2);
    assert!(!a.get_address().is_empty());
    assert_eq!(a.get_address(), fixed_wallet(1).get_address());
    assert_ne!(a.get_address(), b.get_address());
    let broken = Wallet { public_key: vec![1, 2, 3], private_key: vec![1; 32] };
    assert_eq!(broken.get_address(), "");
}

#[test]
fn characters_that_move_between_fields_change_the_hash() {
    let first = transfer("ab", "c", "1", "0");
    let second = transfer("a", "bc", "1", "0");
    assert_ne!(first.hash(), second.hash());
    let third = transfer("A", "B", "11", "0.1");
    let fourth = transfer("A", "B", "1", "10.1");
    assert_ne!(third.hash(), fourth.hash());
}
