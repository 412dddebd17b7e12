//! The block time of an auxiliary chain, by the number of its miners.

use vstd::prelude::*;

verus! {

/// The block time in milliseconds: ten seconds for up to fifty miners, a
/// hundredth less of that for each miner beyond fifty, and never less than
/// half a second.
pub open spec fn block_time_millis(miners: nat) -> nat {
    if miners <= 50 {
        10000
    } else if 10000 - 100 * (miners - 50) < 500 {
        500
    } else {
        (10000 - 100 * (miners - 50)) as nat
    }
}

/// The block time for a number of miners, in milliseconds.
pub fn calculate_block_time(miners: u64) -> (millis: u64)
    ensures
        millis == block_time_millis(miners as nat),
{
    if miners <= 50 {
        10000
    } else if miners - 50 >= 95 {
        500
    } else {
        10000 - 100 * (miners - 50)
    }
}

} // verus!
