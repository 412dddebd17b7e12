//! Signed transfers, and the batch of them that a block holds as its
//! payload.

use vstd::prelude::*;
use crate::amount::Amount;
use crate::amount::amount_text;
use crate::amount::lemma_amount_text_is_one_to_one;
use crate::text::lemma_field_is_read_back;
use crate::text::push_field;
use crate::text::text_field;
use crate::amount::parsed_units;
use crate::blockchain::Blockchain;
use crate::digest::sha3_256_hex;
use crate::digest::sha3_256_hex_string;
use crate::ledger::amount_at;
use crate::payload::Record;
use crate::payload::RecordView;
use crate::payload::json_of_records;
use crate::payload::read_records;
use crate::payload::record_view;
use crate::payload::record_views;
use crate::payload::records_of_json;
use crate::payload::write_records;
use crate::wallet::KeyError;
use crate::wallet::OptionalSerializableSignature;
use crate::wallet::SerializableSignature;
use crate::wallet::p256_accepts;
use crate::wallet::p256_is_public_key;
use crate::wallet::p256_public_key;
use crate::wallet::p256_signature;
use crate::wallet::sign_message;
use crate::wallet::verify_message;

verus! {

/// What a transaction holds.
pub struct TransferView {
    pub sender: Seq<char>,
    pub receiver: Seq<char>,
    pub amount: nat,
    pub fee: nat,
    pub signature: Option<Seq<u8>>,
}

/// The text that a transfer's hash is taken of: sender, receiver, and the
/// texts of amount and fee, each with its length before it.
pub open spec fn transfer_preimage(t: TransferView) -> Seq<char> {
    text_field(t.sender) + text_field(t.receiver) + text_field(amount_text(t.amount))
        + text_field(amount_text(t.fee))
}

/// The four fields can be read back from the text that is hashed: two
/// transfers with the same text have the same sender, receiver, amount and
/// fee.
pub proof fn lemma_preimage_gives_fields(a: TransferView, b: TransferView)
    requires
        transfer_preimage(a) == transfer_preimage(b),
    ensures
        a.sender == b.sender,
        a.receiver == b.receiver,
        a.amount == b.amount,
        a.fee == b.fee,
{
    let empty = Seq::<char>::empty();
    let a3 = text_field(amount_text(a.fee));
    let a2 = text_field(amount_text(a.amount)) + a3;
    let a1 = text_field(a.receiver) + a2;
    let b3 = text_field(amount_text(b.fee));
    let b2 = text_field(amount_text(b.amount)) + b3;
    let b1 = text_field(b.receiver) + b2;
    assert(transfer_preimage(a) =~= text_field(a.sender) + a1);
    assert(transfer_preimage(b) =~= text_field(b.sender) + b1);
    lemma_field_is_read_back(a.sender, a1, b.sender, b1);
    lemma_field_is_read_back(a.receiver, a2, b.receiver, b2);
    lemma_field_is_read_back(amount_text(a.amount), a3, amount_text(b.amount), b3);
    assert(a3 =~= a3 + empty);
    assert(b3 =~= b3 + empty);
    lemma_field_is_read_back(amount_text(a.fee), empty, amount_text(b.fee), empty);
    lemma_amount_text_is_one_to_one(a.amount, b.amount);
    lemma_amount_text_is_one_to_one(a.fee, b.fee);
}

/// The hash of a transfer. The signature has no part in it.
pub open spec fn transfer_hash(t: TransferView) -> Seq<char> {
    sha3_256_hex(transfer_preimage(t))
}

/// Sender and receiver are named and the amount is not nothing.
pub open spec fn well_formed(t: TransferView) -> bool {
    t.sender.len() > 0 && t.receiver.len() > 0 && t.amount > 0
}

/// What checking the signature of a transfer against a public key gives:
/// `false` without a signature, an error for bytes that are no key, else
/// whether the signature is accepted for the transfer's hash.
pub open spec fn signed_by(t: TransferView, public_key: Seq<u8>) -> Result<bool, KeyError> {
    match t.signature {
        None => Ok(false),
        Some(signature) => if p256_is_public_key(public_key) {
            Ok(p256_accepts(public_key, transfer_hash(t), signature))
        } else {
            Err(KeyError::Malformed)
        },
    }
}

/// The record that is written for a transfer.
pub open spec fn record_of(t: TransferView) -> RecordView {
    (t.sender, t.receiver, amount_text(t.amount), amount_text(t.fee), t.signature)
}

/// The transfer that a record stands for, if its amounts are amounts.
pub open spec fn transfer_of(r: RecordView) -> Option<TransferView> {
    match (parsed_units(r.2), parsed_units(r.3)) {
        (Some(amount), Some(fee)) => Some(
            TransferView { sender: r.0, receiver: r.1, amount, fee, signature: r.4 },
        ),
        _ => None,
    }
}

/// The records of a batch of transfers.
pub open spec fn records_of(batch: Seq<TransferView>) -> Seq<RecordView> {
    Seq::new(batch.len(), |i: int| record_of(batch[i]))
}

/// The transfers that records stand for, if each stands for one.
pub open spec fn transfers_of(records: Seq<RecordView>) -> Option<Seq<TransferView>> {
    if forall|i: int| 0 <= i < records.len() ==> (#[trigger] transfer_of(records[i])) is Some {
        Some(Seq::new(records.len(), |i: int| transfer_of(records[i]).unwrap()))
    } else {
        None
    }
}

/// The payload of a block that holds the batch.
pub open spec fn batch_text(batch: Seq<TransferView>) -> Seq<char> {
    json_of_records(records_of(batch))
}

/// The batch that a payload holds, if it holds one.
pub open spec fn decoded_batch(text: Seq<char>) -> Option<Seq<TransferView>> {
    match records_of_json(text) {
        Some(records) => transfers_of(records),
        None => None,
    }
}

/// What a sequence of transactions holds.
pub open spec fn transfers(pool: Seq<Transaction>) -> Seq<TransferView> {
    Seq::new(pool.len(), |i: int| pool[i]@)
}

/// The hash of a transfer is the same whatever its signature.
pub proof fn lemma_hash_ignores_signature(a: TransferView, b: TransferView)
    requires
        a.sender == b.sender,
        a.receiver == b.receiver,
        a.amount == b.amount,
        a.fee == b.fee,
    ensures
        transfer_hash(a) == transfer_hash(b),
{
}

#[derive(Debug)]
pub struct Transaction {
    /// The address that pays amount and fee.
    pub sender: String,
    /// The address that gets the amount.
    pub receiver: String,
    /// What is transferred.
    pub amount: Amount,
    /// What the sender pays on top, to the two protocol addresses.
    pub fee: Amount,
    /// The sender's signature on the hash, once the transaction is signed.
    pub signature: OptionalSerializableSignature,
}

impl View for Transaction {
    type V = TransferView;

    open spec fn view(&self) -> TransferView {
        TransferView {
            sender: self.sender@,
            receiver: self.receiver@,
            amount: self.amount@,
            fee: self.fee@,
            signature: self.signature.bytes(),
        }
    }
}

impl Clone for Transaction {
    fn clone(&self) -> (copy: Transaction)
        ensures
            copy@ == self@,
    {
        Transaction {
            sender: self.sender.clone(),
            receiver: self.receiver.clone(),
            amount: self.amount.clone(),
            fee: self.fee.clone(),
            signature: self.signature.clone(),
        }
    }
}

impl Transaction {
    /// Whether sender and receiver are named and the amount is not nothing.
    /// A fee is never below zero.
    pub fn is_well_formed(&self) -> (ok: bool)
        ensures
            ok == well_formed(self@),
    {
        !self.sender.as_str().is_empty() && !self.receiver.as_str().is_empty()
            && !self.amount.is_zero()
    }

    /// The hash over sender, receiver, amount and fee.
    pub fn hash(&self) -> (hash: String)
        ensures
            hash@ == transfer_hash(self@),
            hash@.len() == 64,
    {
        let mut text = String::new();
        push_field(&mut text, self.sender.as_str());
        push_field(&mut text, self.receiver.as_str());
        push_field(&mut text, self.amount.to_text().as_str());
        push_field(&mut text, self.fee.to_text().as_str());
        assert(text@ =~= transfer_preimage(self@));
        sha3_256_hex_string(text.as_str())
    }

    /// Signs the hash with a private key and keeps the signature. Bytes that
    /// are no private key are an error, and the transaction stays as it was.
    /// A transaction that was signed verifies against the public key of the
    /// private key, for as long as its fields stay as they are.
    pub fn sign(&mut self, private_key: &[u8]) -> (signed: Result<(), KeyError>)
        ensures
            signed is Ok ==> forall|public_key: Seq<u8>|
                p256_public_key(private_key@) == Some(public_key) && p256_is_public_key(public_key)
                    ==> #[trigger] signed_by(final(self)@, public_key) == Ok::<bool, KeyError>(
                    true,
                ),
            match signed {
                Ok(_) => {
                    &&& p256_signature(private_key@, transfer_hash(old(self)@)) is Some
                    &&& final(self)@ == (TransferView {
                        signature: p256_signature(private_key@, transfer_hash(old(self)@)),
                        ..old(self)@
                    })
                },
                Err(_) => {
                    &&& p256_signature(private_key@, transfer_hash(old(self)@)) is None
                    &&& final(self)@ == old(self)@
                },
            },
    {
        let message = self.hash();
        match sign_message(private_key, message.as_str()) {
            Ok(signature) => {
                self.signature = OptionalSerializableSignature(
                    Some(SerializableSignature(signature)),
                );
                Ok(())
            },
            Err(error) => Err(error),
        }
    }

    /// Checks the signature against a public key.
    pub fn verify(&self, public_key: &[u8]) -> (verdict: Result<bool, KeyError>)
        ensures
            verdict == signed_by(self@, public_key@),
    {
        match &self.signature.0 {
            Some(signature) => {
                let message = self.hash();
                verify_message(public_key, message.as_str(), signature.0.as_slice())
            },
            None => Ok(false),
        }
    }

    /// Whether the transaction is well-formed and the sender's balance covers
    /// amount and fee. What is pending is not counted.
    pub fn validate(&self, blockchain: &Blockchain) -> (ok: bool)
        ensures
            ok == (well_formed(self@) && amount_at(blockchain.balances.ledger(), self.sender@)
                >= self.amount@ + self.fee@),
    {
        let due = self.amount.plus(&self.fee);
        blockchain.balances.balance(self.sender.as_str()).covers(&due) && self.is_well_formed()
    }

    /// The record that is written for the transaction.
    pub fn to_record(&self) -> (record: Record)
        ensures
            record_view(record) == record_of(self@),
    {
        let signature = match &self.signature.0 {
            Some(signature) => Some(signature.0.clone()),
            None => None,
        };
        (
            self.sender.clone(),
            self.receiver.clone(),
            self.amount.to_text(),
            self.fee.to_text(),
            signature,
        )
    }

    /// The transaction that a record stands for, if its amounts are amounts.
    pub fn from_record(record: &Record) -> (transaction: Option<Transaction>)
        ensures
            match transaction {
                Some(t) => transfer_of(record_view(*record)) == Some(t@),
                None => transfer_of(record_view(*record)) is None,
            },
    {
        let amount = Amount::parse(record.2.as_str());
        let fee = Amount::parse(record.3.as_str());
        match (amount, fee) {
            (Some(amount), Some(fee)) => {
                let signature = match &record.4 {
                    Some(bytes) => Some(SerializableSignature(bytes.clone())),
                    None => None,
                };
                Some(
                    Transaction {
                        sender: record.0.clone(),
                        receiver: record.1.clone(),
                        amount,
                        fee,
                        signature: OptionalSerializableSignature(signature),
                    },
                )
            },
            _ => None,
        }
    }
}

/// Writes a batch of transactions as the payload of a block.
pub fn encode_batch(pool: &Vec<Transaction>) -> (text: String)
    ensures
        text@ == batch_text(transfers(pool@)),
{
    let mut records: Vec<Record> = Vec::new();
    let mut i: usize = 0;
    while i < pool.len()
        invariant
            i <= pool.len(),
            records@.len() == i,
            forall|j: int|
                0 <= j < i ==> record_view(#[trigger] records@[j]) == record_of(
                    pool@[j]@,
                ),
        decreases pool.len() - i,
    {
        records.push(pool[i].to_record());
        i += 1;
    }
    assert(record_views(records@) =~= records_of(transfers(pool@)));
    write_records(&records)
}

/// Reads the batch of transactions that a payload holds.
pub fn decode_batch(text: &str) -> (pool: Option<Vec<Transaction>>)
    ensures
        match pool {
            Some(found) => decoded_batch(text@) == Some(transfers(found@)),
            None => decoded_batch(text@) is None,
        },
{
    let records = match read_records(text) {
        Some(records) => records,
        None => {
            return None;
        },
    };
    let mut pool: Vec<Transaction> = Vec::new();
    let mut i: usize = 0;
    while i < records.len()
        invariant
            i <= records.len(),
            pool@.len() == i,
            records_of_json(text@) == Some(record_views(records@)),
            forall|j: int|
                0 <= j < i ==> transfer_of(record_view(records@[j])) == Some(
                    (#[trigger] pool@[j])@,
                ),
        decreases records.len() - i,
    {
        match Transaction::from_record(&records[i]) {
            Some(transaction) => {
                pool.push(transaction);
            },
            None => {
                assert(transfer_of(record_views(records@)[i as int]) is None);
                return None;
            },
        }
        i += 1;
    }
    proof {
        let views = record_views(records@);
        assert forall|j: int| 0 <= j < views.len() implies (#[trigger] transfer_of(
            views[j],
        )) is Some by {
            assert(transfer_of(record_view(records@[j])) == Some(pool@[j]@));
        }
        assert(transfers_of(views).unwrap() =~= transfers(pool@));
    }
    Some(pool)
}

} // verus!
