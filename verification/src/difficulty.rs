//! The difficulty controller: one step of feedback after every block.

use vstd::prelude::*;

verus! {

/// The adjustment in hundredths; more than a hundred count as a hundred.
pub open spec fn capped(percent: nat) -> nat {
    if percent > 100 {
        100
    } else {
        percent
    }
}

/// The difficulty after a block that took `elapsed` where `target` was
/// aimed at: so many hundredths more, rounded up, after a faster block; so
/// many less, rounded down but not below 1, after a slower one.
pub open spec fn retargeted(difficulty: nat, elapsed: nat, target: nat, percent: nat) -> nat {
    if elapsed < target {
        (difficulty * (100 + capped(percent)) + 99) / 100
    } else if elapsed > target {
        if difficulty * (100 - capped(percent)) / 100 < 1 {
            1
        } else {
            (difficulty * (100 - capped(percent)) / 100) as nat
        }
    } else {
        difficulty
    }
}

/// A faster block never lowers the difficulty and a slower one never raises
/// it; after a slower block the difficulty is at least 1; a block on target
/// leaves it as it is.
pub proof fn lemma_retargeted_moves_toward_target(
    difficulty: nat,
    elapsed: nat,
    target: nat,
    percent: nat,
)
    ensures
        elapsed < target ==> retargeted(difficulty, elapsed, target, percent) >= difficulty,
        elapsed > target ==> retargeted(difficulty, elapsed, target, percent) >= 1,
        elapsed > target && difficulty >= 1 ==> retargeted(difficulty, elapsed, target, percent)
            <= difficulty,
        elapsed == target ==> retargeted(difficulty, elapsed, target, percent) == difficulty,
{
    let up = (100 + capped(percent)) as int;
    let down = (100 - capped(percent)) as int;
    assert((difficulty * up + 99) / 100 >= difficulty) by (nonlinear_arith)
        requires
            up >= 100,
    ;
    assert(difficulty * down / 100 <= difficulty) by (nonlinear_arith)
        requires
            0 <= down <= 100,
    ;
}

/// The retargeted difficulty, as far as `usize` holds it.
pub open spec fn adjusted_difficulty_of(
    difficulty: usize,
    elapsed: u128,
    target: u128,
    percent: u8,
) -> usize {
    if retargeted(difficulty as nat, elapsed as nat, target as nat, percent as nat) <= usize::MAX {
        retargeted(difficulty as nat, elapsed as nat, target as nat, percent as nat) as usize
    } else {
        usize::MAX
    }
}

/// The difficulty after a block that took `elapsed` where `target` was
/// aimed at.
pub fn adjusted_difficulty(difficulty: usize, elapsed: u128, target: u128, percent: u8) -> (next:
    usize)
    ensures
        next == adjusted_difficulty_of(difficulty, elapsed, target, percent),
{
    let wide: u128 = difficulty as u128;
    let step: u128 = if percent > 100 {
        100
    } else {
        percent as u128
    };
    assert(wide * (100 + step) <= wide * 200 && wide * (100 - step) <= wide * 100) by (nonlinear_arith)
        requires
            step <= 100,
    ;
    let next: u128 = if elapsed < target {
        (wide * (100 + step) + 99) / 100
    } else if elapsed > target {
        let lower = wide * (100 - step) / 100;
        if lower < 1 {
            1
        } else {
            lower
        }
    } else {
        wide
    };
    if next > usize::MAX as u128 {
        usize::MAX
    } else {
        next as usize
    }
}

} // verus!
