//! Natural numbers of any size. A `Natural` holds base-2^32 digits; the
//! arithmetic on them is `num_bigint`'s: each operation here makes a
//! `BigUint` of the digits by `BigUint::from_slice`, applies the operator of
//! `BigUint`, and takes the digits of what comes back by `to_u32_digits`.
//! What is stated of an operation is stated of the numbers that the digits
//! stand for.

use num_bigint::BigUint;
use num_bigint::RandBigInt;
use vstd::prelude::*;
use crate::text::decimal_text;

verus! {

/// The number that little-endian base-2^32 digits stand for.
pub open spec fn limbs_value(limbs: Seq<u32>) -> nat
    decreases limbs.len(),
{
    if limbs.len() == 0 {
        0
    } else {
        limbs[0] as nat + 4294967296 * limbs_value(limbs.drop_first())
    }
}

/// What `str::parse::<BigUint>` makes of a text: the number, or `None` where
/// it reports an error.
pub uninterp spec fn parsed_natural(text: Seq<char>) -> Option<nat>;

/// A natural number.
#[derive(Debug)]
pub struct Natural {
    pub(crate) limbs: Vec<u32>,
}

impl View for Natural {
    type V = nat;

    closed spec fn view(&self) -> nat {
        limbs_value(self.limbs@)
    }
}

impl Clone for Natural {
    fn clone(&self) -> (copy: Natural)
        ensures
            copy@ == self@,
    {
        Natural { limbs: self.limbs.clone() }
    }
}

impl Natural {
    /// The number `n`.
    pub fn from_u128(n: u128) -> (value: Natural)
        ensures
            value@ == n,
    {
        let base: u128 = 4294967296;
        let d0 = (n % base) as u32;
        let d1 = ((n / base) % base) as u32;
        let d2 = ((n / base / base) % base) as u32;
        let d3 = (n / base / base / base) as u32;
        let mut limbs: Vec<u32> = Vec::new();
        limbs.push(d0);
        limbs.push(d1);
        limbs.push(d2);
        limbs.push(d3);
        proof {
            let s = limbs@;
            let s1 = s.drop_first();
            let s2 = s1.drop_first();
            let s3 = s2.drop_first();
            assert(s3.drop_first().len() == 0);
            assert(limbs_value(s3.drop_first()) == 0);
            assert(limbs_value(s3) == d3 as nat);
            assert(limbs_value(s2) == d2 as nat + 4294967296 * limbs_value(s3));
            assert(limbs_value(s1) == d1 as nat + 4294967296 * limbs_value(s2));
            assert(limbs_value(s) == d0 as nat + 4294967296 * limbs_value(s1));
        }
        Natural { limbs }
    }

    /// The decimal numeral of the number. It parses back to the number.
    pub fn to_text(&self) -> (text: String)
        ensures
            text@ == decimal_text(self@),
            parsed_natural(text@) == Some(self@),
    {
        self.numeral()
    }

    /// The number that a decimal numeral stands for; `None` where the text
    /// is none.
    pub fn parse(text: &str) -> (value: Option<Natural>)
        ensures
            match value {
                Some(n) => parsed_natural(text@) == Some(n@),
                None => parsed_natural(text@) is None,
            },
    {
        Natural::parsed(text)
    }

    /// Whether the two numbers are the same.
    pub fn equals(&self, other: &Natural) -> (same: bool)
        ensures
            same == (self@ == other@),
    {
        self.same(other)
    }

    /// Whether `self` is the smaller number.
    pub fn is_below(&self, other: &Natural) -> (less: bool)
        ensures
            less == (self@ < other@),
    {
        self.below(other)
    }

    /// `BigUint`'s `+`: the sum.
    #[verifier::external_body]
    pub(crate) fn plus(&self, other: &Natural) -> (sum: Natural)
        ensures
            sum@ == self@ + other@,
    {
        let sum = BigUint::from_slice(&self.limbs) + BigUint::from_slice(&other.limbs);
        Natural { limbs: sum.to_u32_digits() }
    }

    /// `BigUint`'s `-`, which panics below zero: the difference.
    #[verifier::external_body]
    pub(crate) fn minus(&self, other: &Natural) -> (difference: Natural)
        requires
            other@ <= self@,
        ensures
            difference@ == self@ - other@,
    {
        let difference = BigUint::from_slice(&self.limbs) - BigUint::from_slice(&other.limbs);
        Natural { limbs: difference.to_u32_digits() }
    }

    /// `BigUint`'s `*`: the product.
    #[verifier::external_body]
    pub(crate) fn times(&self, other: &Natural) -> (product: Natural)
        ensures
            product@ == self@ * other@,
    {
        let product = BigUint::from_slice(&self.limbs) * BigUint::from_slice(&other.limbs);
        Natural { limbs: product.to_u32_digits() }
    }

    /// `BigUint`'s `/`, which panics on a zero divisor: the quotient,
    /// rounded down.
    #[verifier::external_body]
    pub(crate) fn quotient(&self, divisor: &Natural) -> (q: Natural)
        requires
            divisor@ > 0,
        ensures
            q@ == self@ / divisor@,
    {
        let q = BigUint::from_slice(&self.limbs) / BigUint::from_slice(&divisor.limbs);
        Natural { limbs: q.to_u32_digits() }
    }

    /// `BigUint`'s `%`, which panics on a zero divisor: the remainder.
    #[verifier::external_body]
    pub(crate) fn remainder(&self, divisor: &Natural) -> (r: Natural)
        requires
            divisor@ > 0,
        ensures
            r@ == self@ % divisor@,
    {
        let r = BigUint::from_slice(&self.limbs) % BigUint::from_slice(&divisor.limbs);
        Natural { limbs: r.to_u32_digits() }
    }

    /// `BigUint`'s `<`.
    #[verifier::external_body]
    pub(crate) fn below(&self, other: &Natural) -> (less: bool)
        ensures
            less == (self@ < other@),
    {
        BigUint::from_slice(&self.limbs) < BigUint::from_slice(&other.limbs)
    }

    /// `BigUint`'s `==`.
    #[verifier::external_body]
    pub(crate) fn same(&self, other: &Natural) -> (equal: bool)
        ensures
            equal == (self@ == other@),
    {
        BigUint::from_slice(&self.limbs) == BigUint::from_slice(&other.limbs)
    }

    /// `BigUint`'s `to_string`: the decimal numeral, which
    /// `str::parse::<BigUint>` reads back as the same number.
    #[verifier::external_body]
    pub(crate) fn numeral(&self) -> (text: String)
        ensures
            text@ == decimal_text(self@),
            parsed_natural(text@) == Some(self@),
    {
        BigUint::from_slice(&self.limbs).to_string()
    }

    /// `str::parse::<BigUint>`: `None` where it reports an error.
    #[verifier::external_body]
    pub(crate) fn parsed(text: &str) -> (value: Option<Natural>)
        ensures
            match value {
                Some(n) => parsed_natural(text@) == Some(n@),
                None => parsed_natural(text@) is None,
            },
    {
        match text.parse::<BigUint>() {
            Ok(n) => Some(Natural { limbs: n.to_u32_digits() }),
            Err(_) => None,
        }
    }

    /// `RandBigInt::gen_biguint_below` on `rand::thread_rng()`, which panics
    /// on a zero bound: some number below the bound.
    #[verifier::external_body]
    pub(crate) fn random_below(bound: &Natural) -> (value: Natural)
        requires
            bound@ > 0,
        ensures
            value@ < bound@,
    {
        let value = rand::thread_rng().gen_biguint_below(&BigUint::from_slice(&bound.limbs));
        Natural { limbs: value.to_u32_digits() }
    }
}

} // verus!
