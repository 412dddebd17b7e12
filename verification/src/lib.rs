//! A proof-of-work ledger engine: hash-linked blocks, signed transfers over a
//! balance ledger, self-adjusting difficulty, and auxiliary chains of
//! verifiable work.

pub mod text;
pub mod digest;
pub mod block;
pub mod natural;
pub mod integer;
pub mod amount;
pub mod address_map;
pub mod ledger;
pub mod supply;
pub mod wallet;
pub mod payload;
pub mod transaction;
pub mod settlement;
pub mod rewards;
pub mod difficulty;
pub mod blockchain;
pub mod subchain_block;
pub mod subchain_pow;
pub mod subchain;
pub mod subchain_block_time;
pub mod utils;
pub mod work;
