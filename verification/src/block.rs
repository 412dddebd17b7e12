//! A block of the chain: a header that links to its predecessor, an opaque
//! payload, and the nonce that the proof-of-work search settles.

use vstd::prelude::*;
use crate::digest::has_leading_zeros;
use crate::digest::meets_difficulty;
use crate::digest::sha256_hex;
use crate::digest::sha256_hex_string;
use crate::text::decimal_text;
use crate::text::decimal_string;
use crate::text::lemma_decimal_text_is_one_to_one;
use crate::text::lemma_field_is_read_back;
use crate::text::push_field;
use crate::text::text_field;

verus! {

#[derive(Debug)]
pub struct Block {
    /// The height of the block in its chain.
    pub index: u64,
    /// When the search for the block began, in milliseconds since the Unix
    /// epoch.
    pub timestamp: u128,
    /// The hash of the block before this one.
    pub previous_hash: String,
    /// The hash of the other fields, as 64 hexadecimal characters.
    pub hash: String,
    /// The payload.
    pub data: String,
    /// The number that the proof-of-work search settles.
    pub nonce: u64,
}

/// The text that a block's hash is taken of: the decimal numerals of index
/// and timestamp, the previous hash, the payload, and the decimal numeral of
/// the nonce, in this order and each with its length before it.
pub open spec fn block_preimage(
    index: u64,
    timestamp: u128,
    previous_hash: Seq<char>,
    data: Seq<char>,
    nonce: u64,
) -> Seq<char> {
    text_field(decimal_text(index as nat)) + text_field(decimal_text(timestamp as nat))
        + text_field(previous_hash) + text_field(data) + text_field(decimal_text(nonce as nat))
}

/// The five fields can be read back from the text that is hashed: two
/// blocks with the same text have the same index, timestamp, previous hash,
/// payload and nonce.
pub proof fn lemma_block_preimage_gives_fields(
    index: u64,
    timestamp: u128,
    previous_hash: Seq<char>,
    data: Seq<char>,
    nonce: u64,
    other_index: u64,
    other_timestamp: u128,
    other_previous_hash: Seq<char>,
    other_data: Seq<char>,
    other_nonce: u64,
)
    requires
        block_preimage(index, timestamp, previous_hash, data, nonce) == block_preimage(
            other_index,
            other_timestamp,
            other_previous_hash,
            other_data,
            other_nonce,
        ),
    ensures
        index == other_index,
        timestamp == other_timestamp,
        previous_hash == other_previous_hash,
        data == other_data,
        nonce == other_nonce,
{
    let empty = Seq::<char>::empty();
    let a4 = text_field(decimal_text(nonce as nat));
    let a3 = text_field(data) + a4;
    let a2 = text_field(previous_hash) + a3;
    let a1 = text_field(decimal_text(timestamp as nat)) + a2;
    let b4 = text_field(decimal_text(other_nonce as nat));
    let b3 = text_field(other_data) + b4;
    let b2 = text_field(other_previous_hash) + b3;
    let b1 = text_field(decimal_text(other_timestamp as nat)) + b2;
    assert(block_preimage(index, timestamp, previous_hash, data, nonce) =~= text_field(
        decimal_text(index as nat),
    ) + a1);
    assert(block_preimage(
        other_index,
        other_timestamp,
        other_previous_hash,
        other_data,
        other_nonce,
    ) =~= text_field(decimal_text(other_index as nat)) + b1);
    lemma_field_is_read_back(decimal_text(index as nat), a1, decimal_text(other_index as nat), b1);
    lemma_field_is_read_back(
        decimal_text(timestamp as nat),
        a2,
        decimal_text(other_timestamp as nat),
        b2,
    );
    lemma_field_is_read_back(previous_hash, a3, other_previous_hash, b3);
    lemma_field_is_read_back(data, a4, other_data, b4);
    assert(a4 =~= a4 + empty);
    assert(b4 =~= b4 + empty);
    lemma_field_is_read_back(
        decimal_text(nonce as nat),
        empty,
        decimal_text(other_nonce as nat),
        empty,
    );
    lemma_decimal_text_is_one_to_one(index as nat, other_index as nat);
    lemma_decimal_text_is_one_to_one(timestamp as nat, other_timestamp as nat);
    lemma_decimal_text_is_one_to_one(nonce as nat, other_nonce as nat);
}

/// The hash of a block with the given fields.
pub open spec fn block_hash(
    index: u64,
    timestamp: u128,
    previous_hash: Seq<char>,
    data: Seq<char>,
    nonce: u64,
) -> Seq<char> {
    sha256_hex(block_preimage(index, timestamp, previous_hash, data, nonce))
}

/// Computes `block_hash` of the given fields.
pub fn hash_fields(index: u64, timestamp: u128, previous_hash: &str, data: &str, nonce: u64) -> (hash:
    String)
    ensures
        hash@ == block_hash(index, timestamp, previous_hash@, data@, nonce),
        hash@.len() == 64,
{
    let mut text = String::new();
    push_field(&mut text, decimal_string(index as u128).as_str());
    push_field(&mut text, decimal_string(timestamp).as_str());
    push_field(&mut text, previous_hash);
    push_field(&mut text, data);
    push_field(&mut text, decimal_string(nonce as u128).as_str());
    assert(text@ =~= block_preimage(index, timestamp, previous_hash@, data@, nonce));
    sha256_hex_string(text.as_str())
}

impl Block {
    /// The hash that this block would have with `nonce` in place of its own.
    pub open spec fn hash_at(&self, nonce: u64) -> Seq<char> {
        block_hash(self.index, self.timestamp, self.previous_hash@, self.data@, nonce)
    }

    /// The hash recomputed from the stored fields.
    pub open spec fn expected_hash(&self) -> Seq<char> {
        self.hash_at(self.nonce)
    }

    /// Whether the stored hash is the hash of the stored fields.
    pub open spec fn is_sealed(&self) -> bool {
        self.hash@ == self.expected_hash()
    }

    /// Whether the block is what a search at `difficulty` leaves: its hash
    /// meets the difficulty and the hash of no smaller nonce does, or no
    /// nonce's hash meets it.
    pub open spec fn is_searched(&self, difficulty: nat) -> bool {
        ||| {
            &&& meets_difficulty(self.hash@, difficulty)
            &&& forall|n: u64|
                n < self.nonce ==> !meets_difficulty(#[trigger] self.hash_at(n), difficulty)
        }
        ||| difficulty > 64
        ||| forall|n: u64| !meets_difficulty(#[trigger] self.hash_at(n), difficulty)
    }

    /// Whether `self` and `other` agree on everything but nonce and hash.
    pub open spec fn same_content(&self, other: &Block) -> bool {
        &&& self.index == other.index
        &&& self.timestamp == other.timestamp
        &&& self.previous_hash@ == other.previous_hash@
        &&& self.data@ == other.data@
    }

    /// A block with the given fields and the hash of them.
    pub fn new(index: u64, timestamp: u128, previous_hash: String, data: String, nonce: u64) -> (block:
        Block)
        ensures
            block.index == index,
            block.timestamp == timestamp,
            block.previous_hash == previous_hash,
            block.data == data,
            block.nonce == nonce,
            block.is_sealed(),
    {
        let hash = hash_fields(index, timestamp, previous_hash.as_str(), data.as_str(), nonce);
        Block { index, timestamp, previous_hash, hash, data, nonce }
    }

    /// Recomputes the hash from the stored fields; the stored hash is not read.
    pub fn calculate_hash(&self) -> (hash: String)
        ensures
            hash@ == self.expected_hash(),
            hash@.len() == 64,
    {
        hash_fields(
            self.index,
            self.timestamp,
            self.previous_hash.as_str(),
            self.data.as_str(),
            self.nonce,
        )
    }

    /// Searches the nonces from 0 upward for the first whose hash starts with
    /// `difficulty` zeros, and stores that nonce and hash. When no nonce
    /// qualifies the block is left as it was.
    pub fn mine_block(&mut self, difficulty: usize) -> (found: bool)
        ensures
            final(self).same_content(old(self)),
            final(self).is_searched(difficulty as nat),
            found ==> {
                &&& difficulty <= 64
                &&& final(self).is_sealed()
                &&& meets_difficulty(final(self).hash@, difficulty as nat)
                &&& forall|n: u64|
                    n < final(self).nonce ==> !meets_difficulty(
                        #[trigger] old(self).hash_at(n),
                        difficulty as nat,
                    )
            },
            !found ==> {
                &&& *final(self) == *old(self)
                &&& difficulty > 64 || forall|n: u64|
                    !meets_difficulty(#[trigger] old(self).hash_at(n), difficulty as nat)
            },
    {
        if difficulty > 64 {
            return false;
        }
        let mut nonce: u64 = 0;
        loop
            invariant
                *self == *old(self),
                difficulty <= 64,
                forall|n: u64|
                    n < nonce ==> !meets_difficulty(
                        #[trigger] old(self).hash_at(n),
                        difficulty as nat,
                    ),
            decreases u64::MAX - nonce,
        {
            let hash = hash_fields(
                self.index,
                self.timestamp,
                self.previous_hash.as_str(),
                self.data.as_str(),
                nonce,
            );
            if has_leading_zeros(hash.as_str(), difficulty) {
                self.nonce = nonce;
                self.hash = hash;
                assert forall|n: u64| n < self.nonce implies !meets_difficulty(
                    #[trigger] self.hash_at(n),
                    difficulty as nat,
                ) by {
                    assert(self.hash_at(n) == old(self).hash_at(n));
                }
                return true;
            }
            if nonce == u64::MAX {
                return false;
            }
            nonce += 1;
        }
    }
}

impl Clone for Block {
    fn clone(&self) -> (copy: Block)
        ensures
            copy == *self,
    {
        Block {
            index: self.index,
            timestamp: self.timestamp,
            previous_hash: self.previous_hash.clone(),
            hash: self.hash.clone(),
            data: self.data.clone(),
            nonce: self.nonce,
        }
    }
}

} // verus!
