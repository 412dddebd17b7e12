//! Amounts of currency: whole numbers of the smallest unit, one hundred
//! millionth of a coin. Their text form is `bigdecimal`'s.

use bigdecimal::BigDecimal;
use num_bigint::BigInt;
use num_bigint::BigUint;
use num_bigint::Sign;
use vstd::arithmetic::power::lemma_pow_positive;
use vstd::arithmetic::power::pow;
use vstd::prelude::*;
use crate::natural::Natural;
use crate::text::decimal_text;
use crate::text::lemma_numeral_is_read_back;
use crate::text::digit_char;

verus! {

/// The number of decimal places of an amount.
pub const DECIMAL_PLACES: i64 = 8;

/// The number of smallest units in one coin.
pub const UNITS_PER_COIN: u128 = 100000000;

/// How many decimal places a parsed number may be shifted by to bring it to
/// `DECIMAL_PLACES`.
pub const MAX_SHIFT: i64 = 64;

/// The last `width` decimal digits of `n`, with leading zeros.
pub open spec fn fixed_digits(n: nat, width: nat) -> Seq<char>
    decreases width,
{
    if width == 0 {
        Seq::empty()
    } else {
        fixed_digits(n / 10, (width - 1) as nat).push(digit_char(n % 10))
    }
}

/// The text of an amount of `units`: the coins, a point, and eight places.
pub open spec fn amount_text(units: nat) -> Seq<char> {
    decimal_text(units / 100000000) + seq!['.'] + fixed_digits(units % 100000000, 8)
}

/// Whether `n` has at most `width` decimal digits.
pub open spec fn fits(n: nat, width: nat) -> bool
    decreases width,
{
    if width == 0 {
        n == 0
    } else {
        fits(n / 10, (width - 1) as nat)
    }
}

/// Two numbers of at most `width` digits with the same `width` digits are
/// the same.
pub proof fn lemma_fixed_digits_are_one_to_one(n: nat, m: nat, width: nat)
    requires
        fits(n, width),
        fits(m, width),
        fixed_digits(n, width) == fixed_digits(m, width),
    ensures
        n == m,
    decreases width,
{
    if width > 0 {
        let shorter = (width - 1) as nat;
        assert(fixed_digits(n, width).last() == digit_char(n % 10));
        assert(fixed_digits(m, width).last() == digit_char(m % 10));
        assert(fixed_digits(n, width).drop_last() == fixed_digits(n / 10, shorter));
        assert(fixed_digits(m, width).drop_last() == fixed_digits(m / 10, shorter));
        lemma_fixed_digits_are_one_to_one(n / 10, m / 10, shorter);
    }
}

/// Two amounts with the same text are the same.
pub proof fn lemma_amount_text_is_one_to_one(a: nat, b: nat)
    requires
        amount_text(a) == amount_text(b),
    ensures
        a == b,
{
    let low_a = a % 100000000;
    let low_b = b % 100000000;
    assert(amount_text(a) =~= decimal_text(a / 100000000).push('.') + fixed_digits(low_a, 8));
    assert(amount_text(b) =~= decimal_text(b / 100000000).push('.') + fixed_digits(low_b, 8));
    lemma_numeral_is_read_back(
        a / 100000000,
        fixed_digits(low_a, 8),
        b / 100000000,
        fixed_digits(low_b, 8),
        '.',
    );
    assert(fits(low_a, 8)) by {
        reveal_with_fuel(fits, 9);
    }
    assert(fits(low_b, 8)) by {
        reveal_with_fuel(fits, 9);
    }
    lemma_fixed_digits_are_one_to_one(low_a, low_b, 8);
}

/// What `BigDecimal::from_str` makes of a text: whether the number is below
/// zero, the magnitude of its digits, and its scale; `None` where it reports
/// an error. The number is the magnitude divided by ten to the scale.
pub uninterp spec fn parsed_decimal(text: Seq<char>) -> Option<(bool, nat, int)>;

/// The units of the number `magnitude / 10^scale`, negated if `negative`:
/// `None` if it is below zero, is no whole number of units, or lies more than
/// `MAX_SHIFT` places away from `DECIMAL_PLACES`.
pub open spec fn units_of(negative: bool, magnitude: nat, scale: int) -> Option<nat> {
    if negative && magnitude > 0 {
        None
    } else if scale < 8 - 64 || scale > 8 + 64 {
        None
    } else if scale <= 8 {
        Some((magnitude * pow(10, (8 - scale) as nat)) as nat)
    } else if magnitude % (pow(10, (scale - 8) as nat) as nat) == 0 {
        Some(magnitude / (pow(10, (scale - 8) as nat) as nat))
    } else {
        None
    }
}

/// `amount * numerator / denominator`, rounded down.
pub open spec fn part_of(amount: nat, numerator: nat, denominator: nat) -> nat {
    ((amount * numerator) as int / denominator as int) as nat
}

/// So many hundredths of an amount, rounded down; more than a hundred
/// count as a hundred.
pub open spec fn hundredths(amount: nat, percent: nat) -> nat {
    part_of(
        amount,
        if percent > 100 {
            100
        } else {
            percent
        },
        100,
    )
}

/// Hundredths of an amount are no more than the amount, and a hundred of
/// them are all of it.
pub proof fn lemma_hundredths_are_within(amount: nat, percent: nat)
    ensures
        hundredths(amount, percent) <= amount,
        percent >= 100 ==> hundredths(amount, percent) == amount,
{
    let p: nat = if percent > 100 {
        100
    } else {
        percent
    };
    assert((amount * p) as int / 100 <= amount) by (nonlinear_arith)
        requires
            p <= 100,
    ;
    assert((amount * 100) as int / 100 == amount) by (nonlinear_arith);
}

/// The units that a text stands for, if it stands for an amount.
pub open spec fn parsed_units(text: Seq<char>) -> Option<nat> {
    match parsed_decimal(text) {
        Some((negative, magnitude, scale)) => units_of(negative, magnitude, scale),
        None => None,
    }
}

/// An amount of currency, never below zero.
#[derive(Debug)]
pub struct Amount {
    units: Natural,
}

impl View for Amount {
    type V = nat;

    closed spec fn view(&self) -> nat {
        self.units@
    }
}

impl Clone for Amount {
    fn clone(&self) -> (copy: Amount)
        ensures
            copy@ == self@,
    {
        Amount { units: self.units.clone() }
    }
}

/// The plain notation of the decimal with the given digits and so many
/// places: what stands before the places, a point, and the places.
pub open spec fn plain_notation(digits: nat, places: nat) -> Seq<char> {
    decimal_text(digits / (pow(10, places) as nat)) + seq!['.'] + fixed_digits(
        digits % (pow(10, places) as nat),
        places,
    )
}

/// The text of an amount is its plain notation with eight places.
pub proof fn lemma_amount_text_is_plain(units: nat)
    ensures
        amount_text(units) == plain_notation(units, 8),
{
    assert(pow(10, 8) == 100000000) by {
        reveal_with_fuel(pow, 9);
    }
}

/// `BigDecimal::to_plain_string` of the decimal with the given digits and
/// scale, for a scale above zero: the digits with a point before the last
/// `scale` of them, and zeros in front where there are no more than `scale`.
#[verifier::external_body]
fn plain_text(digits: &Natural, scale: i64) -> (text: String)
    requires
        scale > 0,
    ensures
        text@ == plain_notation(digits@, scale as nat),
{
    let digits = BigInt::from_biguint(Sign::Plus, BigUint::from_slice(&digits.limbs));
    BigDecimal::new(digits, scale).to_plain_string()
}

/// `BigDecimal::from_str`, and the parts of what it returns by
/// `into_bigint_and_exponent` and `BigInt::into_parts`.
#[verifier::external_body]
fn parse_decimal(text: &str) -> (parts: Option<(bool, Natural, i64)>)
    ensures
        match parts {
            Some((negative, magnitude, scale)) => parsed_decimal(text@) == Some(
                (negative, magnitude@, scale as int),
            ),
            None => parsed_decimal(text@) is None,
        },
{
    match text.parse::<BigDecimal>() {
        Ok(number) => {
            let (digits, scale) = number.into_bigint_and_exponent();
            let (sign, magnitude) = digits.into_parts();
            Some((sign == Sign::Minus, Natural { limbs: magnitude.to_u32_digits() }, scale))
        },
        Err(_) => None,
    }
}

/// Ten to the power `k`.
fn power_of_ten(k: u64) -> (p: Natural)
    ensures
        p@ == pow(10, k as nat),
        p@ > 0,
{
    let ten = Natural::from_u128(10);
    let mut p = Natural::from_u128(1);
    let mut i: u64 = 0;
    proof {
        reveal(pow);
    }
    while i < k
        invariant
            i <= k,
            ten@ == 10,
            p@ == pow(10, i as nat),
        decreases k - i,
    {
        proof {
            reveal(pow);
        }
        p = p.times(&ten);
        i += 1;
    }
    proof {
        lemma_pow_positive(10, k as nat);
    }
    p
}

impl Amount {
    /// No units.
    pub fn zero() -> (amount: Amount)
        ensures
            amount@ == 0,
    {
        Amount { units: Natural::from_u128(0) }
    }

    /// The amount of `units` smallest units.
    pub fn from_units(units: u128) -> (amount: Amount)
        ensures
            amount@ == units,
    {
        Amount { units: Natural::from_u128(units) }
    }

    /// The amount of `coins` whole coins.
    pub fn from_coins(coins: u64) -> (amount: Amount)
        ensures
            amount@ == coins * 100000000,
    {
        let coins: u128 = coins as u128;
        Amount { units: Natural::from_u128(coins * UNITS_PER_COIN) }
    }

    /// The amount that a parsed decimal number stands for.
    pub fn from_parts(negative: bool, magnitude: &Natural, scale: i64) -> (amount: Option<Amount>)
        ensures
            match amount {
                Some(a) => units_of(negative, magnitude@, scale as int) == Some(a@),
                None => units_of(negative, magnitude@, scale as int) is None,
            },
    {
        let zero = Natural::from_u128(0);
        if negative && zero.below(magnitude) {
            return None;
        }
        if scale < DECIMAL_PLACES - MAX_SHIFT || scale > DECIMAL_PLACES + MAX_SHIFT {
            return None;
        }
        if scale <= DECIMAL_PLACES {
            let factor = power_of_ten((DECIMAL_PLACES - scale) as u64);
            Some(Amount { units: magnitude.times(&factor) })
        } else {
            let divisor = power_of_ten((scale - DECIMAL_PLACES) as u64);
            if magnitude.remainder(&divisor).same(&zero) {
                Some(Amount { units: magnitude.quotient(&divisor) })
            } else {
                None
            }
        }
    }

    /// The amount that a decimal numeral stands for, such as `"10"` or
    /// `"0.5"`; `None` where the text is no number or no amount.
    pub fn parse(text: &str) -> (amount: Option<Amount>)
        ensures
            match amount {
                Some(a) => parsed_units(text@) == Some(a@),
                None => parsed_units(text@) is None,
            },
    {
        match parse_decimal(text) {
            Some((negative, magnitude, scale)) => Amount::from_parts(negative, &magnitude, scale),
            None => None,
        }
    }

    /// The text of the amount, with all eight decimal places.
    pub fn to_text(&self) -> (text: String)
        ensures
            text@ == amount_text(self@),
    {
        proof {
            lemma_amount_text_is_plain(self@);
        }
        plain_text(&self.units, DECIMAL_PLACES)
    }

    /// The sum.
    pub fn plus(&self, other: &Amount) -> (sum: Amount)
        ensures
            sum@ == self@ + other@,
    {
        Amount { units: self.units.plus(&other.units) }
    }

    /// The difference, or `None` where `other` is the larger.
    pub fn checked_minus(&self, other: &Amount) -> (difference: Option<Amount>)
        ensures
            match difference {
                Some(d) => other@ <= self@ && d@ == self@ - other@,
                None => other@ > self@,
            },
    {
        if self.units.below(&other.units) {
            None
        } else {
            Some(Amount { units: self.units.minus(&other.units) })
        }
    }

    /// `self * numerator / denominator`, rounded down to whole units.
    pub fn portion(&self, numerator: u128, denominator: u128) -> (part: Amount)
        requires
            denominator > 0,
        ensures
            part@ == part_of(self@, numerator as nat, denominator as nat),
    {
        let n = Natural::from_u128(numerator);
        let d = Natural::from_u128(denominator);
        Amount { units: self.units.times(&n).quotient(&d) }
    }

    /// So many hundredths of the amount, rounded down; more than a hundred
    /// count as a hundred.
    pub fn hundredths(&self, percent: u8) -> (part: Amount)
        ensures
            part@ == hundredths(self@, percent as nat),
            part@ <= self@,
    {
        proof {
            lemma_hundredths_are_within(self@, percent as nat);
        }
        let capped: u128 = if percent > 100 {
            100
        } else {
            percent as u128
        };
        self.portion(capped, 100)
    }

    /// Whether the amount is nothing.
    pub fn is_zero(&self) -> (zero: bool)
        ensures
            zero == (self@ == 0),
    {
        self.units.same(&Natural::from_u128(0))
    }

    /// Whether `self` is at least `other`.
    pub fn covers(&self, other: &Amount) -> (enough: bool)
        ensures
            enough == (self@ >= other@),
    {
        !self.units.below(&other.units)
    }

    /// Whether the two amounts are the same.
    pub fn equals(&self, other: &Amount) -> (same: bool)
        ensures
            same == (self@ == other@),
    {
        self.units.same(&other.units)
    }
}

} // verus!
