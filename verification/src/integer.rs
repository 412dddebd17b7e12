//! Whole numbers of any size, with a sign. Their text is read by
//! `num_bigint`.

use num_bigint::BigInt;
use num_bigint::Sign;
use vstd::prelude::*;
use vstd::string::StringExecFns;
use crate::natural::Natural;
use crate::text::decimal_text;

verus! {

/// What `str::parse::<BigInt>` makes of a text: the number, or `None` where
/// it reports an error.
pub uninterp spec fn parsed_integer(text: Seq<char>) -> Option<int>;

/// The number of a sign and a magnitude.
pub open spec fn signed(negative: bool, magnitude: nat) -> int {
    if negative {
        -(magnitude as int)
    } else {
        magnitude as int
    }
}

/// The decimal numeral of a whole number, with `-` before one below zero.
pub open spec fn integer_text(value: int) -> Seq<char> {
    if value < 0 {
        seq!['-'] + decimal_text((-value) as nat)
    } else {
        decimal_text(value as nat)
    }
}

/// A whole number. Zero may carry either sign.
#[derive(Debug)]
pub struct Integer {
    /// Whether the number is below zero, where the magnitude is not zero.
    pub negative: bool,
    /// The distance from zero.
    pub magnitude: Natural,
}

impl View for Integer {
    type V = int;

    open spec fn view(&self) -> int {
        signed(self.negative, self.magnitude@)
    }
}

/// `str::parse::<BigInt>`, and the parts of what it returns by
/// `BigInt::into_parts`.
#[verifier::external_body]
fn parse_signed(text: &str) -> (parts: Option<(bool, Natural)>)
    ensures
        match parts {
            Some((negative, magnitude)) => parsed_integer(text@) == Some(
                signed(negative, magnitude@),
            ),
            None => parsed_integer(text@) is None,
        },
{
    match text.parse::<BigInt>() {
        Ok(number) => {
            let (sign, magnitude) = number.into_parts();
            Some((sign == Sign::Minus, Natural { limbs: magnitude.to_u32_digits() }))
        },
        Err(_) => None,
    }
}

impl Integer {
    /// The number `n`.
    pub fn from_u128(n: u128) -> (value: Integer)
        ensures
            value@ == n,
    {
        Integer { negative: false, magnitude: Natural::from_u128(n) }
    }

    /// The number that a decimal numeral stands for; `None` where the text
    /// is none.
    pub fn parse(text: &str) -> (value: Option<Integer>)
        ensures
            match value {
                Some(n) => parsed_integer(text@) == Some(n@),
                None => parsed_integer(text@) is None,
            },
    {
        match parse_signed(text) {
            Some((negative, magnitude)) => Some(Integer { negative, magnitude }),
            None => None,
        }
    }

    /// The decimal numeral of the number.
    pub fn to_text(&self) -> (text: String)
        ensures
            text@ == integer_text(self@),
    {
        let digits = self.magnitude.to_text();
        if self.negative && !self.magnitude.equals(&Natural::from_u128(0)) {
            let mut text = String::new();
            text.push('-');
            text.append(digits.as_str());
            assert(text@ == seq!['-'] + digits@);
            text
        } else {
            digits
        }
    }
}

} // verus!
