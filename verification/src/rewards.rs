//! The mining reward: the winner's part to the winner of a block, the rest
//! shared by the miners' contribution counts.

use vstd::prelude::*;
use crate::address_map::holds;
use crate::address_map::index_of;
use crate::address_map::lookup_in;
use crate::address_map::put_in;
use crate::amount::hundredths;
use crate::amount::lemma_hundredths_are_within;
use crate::amount::part_of;
use crate::ledger::Ledger;
use crate::ledger::credited;
use crate::ledger::lemma_credited_alike;
use crate::ledger::same_balances;
use crate::supply::lemma_supply_credited;
use crate::supply::supply;

verus! {

/// The sum of the contribution counts.
pub open spec fn total_of(counts: Seq<(Seq<char>, u64)>) -> nat
    decreases counts.len(),
{
    if counts.len() == 0 {
        0
    } else {
        total_of(counts.drop_last()) + counts.last().1 as nat
    }
}

/// The ledger after each miner got the part of `pool` that its count is of
/// `total`, rounded down.
pub open spec fn shares_paid(
    ledger: Ledger,
    counts: Seq<(Seq<char>, u64)>,
    pool: nat,
    total: nat,
) -> Ledger
    decreases counts.len(),
{
    if counts.len() == 0 {
        ledger
    } else {
        credited(
            shares_paid(ledger, counts.drop_last(), pool, total),
            counts.last().0,
            part_of(pool, counts.last().1 as nat, total),
        )
    }
}

/// The sum of the shares that the counts get of `pool`.
pub open spec fn shares_total(counts: Seq<(Seq<char>, u64)>, pool: nat, total: nat) -> nat
    decreases counts.len(),
{
    if counts.len() == 0 {
        0
    } else {
        shares_total(counts.drop_last(), pool, total) + part_of(
            pool,
            counts.last().1 as nat,
            total,
        )
    }
}

/// The winner's part of a reward: so many hundredths of it, rounded down.
pub open spec fn winner_part(reward: nat, winner_percent: nat) -> nat {
    hundredths(reward, winner_percent)
}

/// What remains of a reward after the winner's part, to be shared.
pub open spec fn shared_part(reward: nat, winner_percent: nat) -> nat {
    (reward - winner_part(reward, winner_percent)) as nat
}

/// The ledger after a reward is distributed: the winner's part to the
/// winner, the rest shared by the counts; nothing where the counts sum to
/// zero.
pub open spec fn rewarded(
    ledger: Ledger,
    winner: Seq<char>,
    counts: Seq<(Seq<char>, u64)>,
    reward: nat,
    winner_percent: nat,
) -> Ledger {
    if total_of(counts) == 0 {
        ledger
    } else {
        shares_paid(
            credited(ledger, winner, winner_part(reward, winner_percent)),
            counts,
            shared_part(reward, winner_percent),
            total_of(counts),
        )
    }
}

/// On two ledgers with the same balances a reward is distributed alike.
pub proof fn lemma_rewarded_alike(
    first: Ledger,
    second: Ledger,
    winner: Seq<char>,
    counts: Seq<(Seq<char>, u64)>,
    reward: nat,
    winner_percent: nat,
)
    requires
        same_balances(first, second),
    ensures
        same_balances(
            rewarded(first, winner, counts, reward, winner_percent),
            rewarded(second, winner, counts, reward, winner_percent),
        ),
{
    if total_of(counts) > 0 {
        lemma_credited_alike(first, second, winner, winner_part(reward, winner_percent));
        lemma_shares_paid_alike(
            credited(first, winner, winner_part(reward, winner_percent)),
            credited(second, winner, winner_part(reward, winner_percent)),
            counts,
            shared_part(reward, winner_percent),
            total_of(counts),
        );
    }
}

proof fn lemma_shares_paid_alike(
    first: Ledger,
    second: Ledger,
    counts: Seq<(Seq<char>, u64)>,
    pool: nat,
    total: nat,
)
    requires
        same_balances(first, second),
    ensures
        same_balances(
            shares_paid(first, counts, pool, total),
            shares_paid(second, counts, pool, total),
        ),
    decreases counts.len(),
{
    if counts.len() > 0 {
        lemma_shares_paid_alike(first, second, counts.drop_last(), pool, total);
        lemma_credited_alike(
            shares_paid(first, counts.drop_last(), pool, total),
            shares_paid(second, counts.drop_last(), pool, total),
            counts.last().0,
            part_of(pool, counts.last().1 as nat, total),
        );
    }
}

/// The count of a miner: zero where none is recorded.
pub open spec fn count_at(counts: Seq<(Seq<char>, u64)>, miner: Seq<char>) -> nat {
    match lookup_in(counts, miner) {
        Some(count) => count as nat,
        None => 0,
    }
}

/// The counts after one more block of `miner`. A count stays at the largest
/// number that it can hold.
pub open spec fn counted(counts: Seq<(Seq<char>, u64)>, miner: Seq<char>) -> Seq<(Seq<char>, u64)> {
    put_in(
        counts,
        miner,
        if count_at(counts, miner) < u64::MAX {
            (count_at(counts, miner) + 1) as u64
        } else {
            u64::MAX
        },
    )
}

/// Each count is at most the total.
pub proof fn lemma_total_bounds(counts: Seq<(Seq<char>, u64)>, i: int)
    requires
        0 <= i < counts.len(),
    ensures
        counts[i].1 <= total_of(counts),
    decreases counts.len(),
{
    if i < counts.len() - 1 {
        lemma_total_bounds(counts.drop_last(), i);
    }
}

/// After a block of a miner is counted the counts do not sum to zero.
pub proof fn lemma_counted_total(counts: Seq<(Seq<char>, u64)>, miner: Seq<char>)
    ensures
        total_of(counted(counts, miner)) > 0,
{
    let after = counted(counts, miner);
    if holds(counts, miner) {
        let i = index_of(counts, miner);
        assert(after[i].1 >= 1);
        lemma_total_bounds(after, i);
    } else {
        assert(after.drop_last() == counts);
        assert(after.last().1 >= 1);
    }
}

/// Two parts, each rounded down, are no more than the part of the sum.
proof fn lemma_parts_add(amount: nat, a: nat, b: nat, total: nat)
    requires
        total > 0,
    ensures
        part_of(amount, a, total) + part_of(amount, b, total) <= part_of(amount, a + b, total),
{
    let x = (amount * a) as int;
    let y = (amount * b) as int;
    let t = total as int;
    assert(amount * (a + b) == x + y) by (nonlinear_arith)
        requires
            x == amount * a,
            y == amount * b,
    ;
    assert(x / t + y / t <= (x + y) / t) by (nonlinear_arith)
        requires
            x >= 0,
            y >= 0,
            t > 0,
    ;
}

/// The shares of the counts are together no more than the part of the pool
/// that the sum of the counts is of the total.
pub proof fn lemma_shares_fit(counts: Seq<(Seq<char>, u64)>, pool: nat, total: nat)
    requires
        total > 0,
    ensures
        shares_total(counts, pool, total) <= part_of(pool, total_of(counts), total),
    decreases counts.len(),
{
    if counts.len() > 0 {
        lemma_shares_fit(counts.drop_last(), pool, total);
        lemma_parts_add(pool, total_of(counts.drop_last()), counts.last().1 as nat, total);
    } else {
        assert(pool * 0 == 0);
        assert(0int / (total as int) == 0) by (nonlinear_arith)
            requires
                total > 0,
        ;
    }
}

/// A distribution pays out no more than the reward: the winner's part and
/// the shares of the rest are together at most the reward.
pub proof fn lemma_reward_is_not_exceeded(
    counts: Seq<(Seq<char>, u64)>,
    reward: nat,
    winner_percent: nat,
)
    requires
        total_of(counts) > 0,
    ensures
        winner_part(reward, winner_percent) + shares_total(
            counts,
            shared_part(reward, winner_percent),
            total_of(counts),
        ) <= reward,
{
    let pool = shared_part(reward, winner_percent);
    let total = total_of(counts);
    lemma_hundredths_are_within(reward, winner_percent);
    lemma_shares_fit(counts, pool, total);
    assert(part_of(pool, total, total) == pool) by (nonlinear_arith)
        requires
            total > 0,
            part_of(pool, total, total) == ((pool * total) as int / total as int) as nat,
    ;
}

/// Paying the shares raises the supply by their sum.
pub proof fn lemma_shares_paid_supply(
    ledger: Ledger,
    counts: Seq<(Seq<char>, u64)>,
    pool: nat,
    total: nat,
)
    requires
        ledger.dom().finite(),
    ensures
        supply(shares_paid(ledger, counts, pool, total)) == supply(ledger) + shares_total(
            counts,
            pool,
            total,
        ),
        shares_paid(ledger, counts, pool, total).dom().finite(),
    decreases counts.len(),
{
    if counts.len() > 0 {
        lemma_shares_paid_supply(ledger, counts.drop_last(), pool, total);
        lemma_supply_credited(
            shares_paid(ledger, counts.drop_last(), pool, total),
            counts.last().0,
            part_of(pool, counts.last().1 as nat, total),
        );
    }
}

/// A distribution raises the supply, and by no more than the reward.
pub proof fn lemma_rewarded_supply(
    ledger: Ledger,
    winner: Seq<char>,
    counts: Seq<(Seq<char>, u64)>,
    reward: nat,
    winner_percent: nat,
)
    requires
        ledger.dom().finite(),
    ensures
        supply(ledger) <= supply(rewarded(ledger, winner, counts, reward, winner_percent)) <= supply(ledger)
            + reward,
        rewarded(ledger, winner, counts, reward, winner_percent).dom().finite(),
{
    if total_of(counts) > 0 {
        let first = credited(ledger, winner, winner_part(reward, winner_percent));
        lemma_supply_credited(ledger, winner, winner_part(reward, winner_percent));
        lemma_shares_paid_supply(first, counts, shared_part(reward, winner_percent), total_of(counts));
        lemma_reward_is_not_exceeded(counts, reward, winner_percent);
    }
}

/// Where one miner holds the only count, that miner's share is all of what
/// is shared, and the distribution pays out the reward to the last unit.
pub proof fn lemma_one_miner_gets_the_reward(
    ledger: Ledger,
    winner: Seq<char>,
    miner: Seq<char>,
    count: u64,
    reward: nat,
    winner_percent: nat,
)
    requires
        ledger.dom().finite(),
        count > 0,
    ensures
        supply(rewarded(ledger, winner, seq![(miner, count)], reward, winner_percent)) == supply(
            ledger,
        ) + reward,
{
    let counts = seq![(miner, count)];
    let pool = shared_part(reward, winner_percent);
    assert(counts.drop_last().len() == 0);
    assert(total_of(counts.drop_last()) == 0);
    assert(total_of(counts) == count);
    assert(shares_total(counts.drop_last(), pool, count as nat) == 0);
    assert(part_of(pool, count as nat, count as nat) == pool) by (nonlinear_arith)
        requires
            count > 0,
            part_of(pool, count as nat, count as nat) == ((pool * count) as int / count as int) as nat,
    ;
    assert(shares_total(counts, pool, count as nat) == pool);
    lemma_hundredths_are_within(reward, winner_percent);
    let first = credited(ledger, winner, winner_part(reward, winner_percent));
    lemma_supply_credited(ledger, winner, winner_part(reward, winner_percent));
    lemma_shares_paid_supply(first, counts, pool, count as nat);
}

} // verus!
