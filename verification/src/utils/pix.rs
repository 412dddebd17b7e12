//! The digit oracle: the decimal digits of pi, from a table.

use vstd::prelude::*;
use vstd::string::StrSliceExecFns;
use crate::integer::parsed_integer;
use crate::integer::Integer;

verus! {

/// The first digits of pi after the decimal point.
pub const PI_DIGITS: &'static str = "141592653589793238462643383279502884197";

/// The number of digits in the table.
pub const PI_DIGIT_COUNT: usize = 39;

/// The digit of pi at a position after the decimal point, counted from 0.
pub open spec fn pi_digit(position: int) -> int {
    PI_DIGITS@[position] as int - 48
}

/// The value of the genesis block: the first digit after the decimal point.
pub fn initialize_genesis_block() -> (genesis: Integer)
    ensures
        genesis@ == 1,
{
    Integer::from_u128(1)
}

/// The number that a block's result stands for, or the genesis value where
/// it stands for none.
pub fn digit_or_genesis(parsed: Option<Integer>) -> (value: Integer)
    ensures
        value@ == match parsed {
            Some(n) => n@,
            None => 1,
        },
{
    match parsed {
        Some(n) => n,
        None => initialize_genesis_block(),
    }
}

/// The number of the last block's result, or the genesis value where there
/// is no block or its result is no number.
pub fn get_last_pi_or_initialize(last_block_result: Option<&str>) -> (value: Integer)
    ensures
        value@ == match last_block_result {
            Some(text) => match parsed_integer(text@) {
                Some(n) => n,
                None => 1,
            },
            None => 1,
        },
{
    match last_block_result {
        Some(text) => digit_or_genesis(Integer::parse(text)),
        None => initialize_genesis_block(),
    }
}

/// The digit of pi for the block after `last_block_number` blocks.
pub fn find_next_pi(last_block_number: usize) -> (digit: Integer)
    requires
        last_block_number < PI_DIGIT_COUNT,
    ensures
        digit@ == pi_digit(last_block_number as int),
        0 <= digit@ <= 9,
{
    proof {
        reveal_strlit("141592653589793238462643383279502884197");
    }
    let c = PI_DIGITS.get_char(last_block_number);
    let code = c as u32;
    assert(48 <= code <= 57);
    Integer::from_u128((code - 48) as u128)
}

/// Whether `claimed` is the digit of pi for the block after
/// `last_block_number` blocks. Beyond the table nothing is.
pub fn is_next_pi(last_block_number: usize, claimed: &Integer) -> (ok: bool)
    ensures
        ok == (last_block_number < PI_DIGIT_COUNT && claimed@ == pi_digit(
            last_block_number as int,
        )),
{
    if last_block_number >= PI_DIGIT_COUNT {
        return false;
    }
    let digit = find_next_pi(last_block_number);
    let zero = crate::natural::Natural::from_u128(0);
    if claimed.negative && !claimed.magnitude.equals(&zero) {
        return false;
    }
    claimed.magnitude.equals(&digit.magnitude)
}

} // verus!
