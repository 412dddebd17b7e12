//! Work oracles: what an auxiliary chain asks of the work that fills its
//! blocks. An oracle produces the result that follows a chain, and checks a
//! result that is claimed to follow.

use vstd::prelude::*;
use crate::integer::integer_text;
use crate::natural::parsed_natural;
use crate::natural::Natural;
use crate::text::decimal_text;
use crate::text::same_text;
use crate::utils::pix::find_next_pi;
use crate::utils::pix::pi_digit;
use crate::utils::pix::PI_DIGIT_COUNT;
use crate::utils::primex::find_next_prime_with;
use crate::utils::primex::follows_in_search;
use crate::utils::primex::get_last_prime_or_initialize;
use crate::utils::primex::lemma_search_has_one_result;
use crate::utils::primex::values;

verus! {

/// A source of verifiable work.
pub trait WorkOracle {
    /// Whether `result` is the work that follows a chain of `length` blocks
    /// whose last result is `previous`.
    spec fn follows(&self, previous: Seq<char>, length: nat, result: Seq<char>) -> bool;

    /// The work that follows, where the oracle finds it.
    fn produce_next(&self, previous: &str, length: usize) -> (result: Option<String>)
        ensures
            match result {
                Some(text) => self.follows(previous@, length as nat, text@),
                None => forall|text: Seq<char>| !self.follows(previous@, length as nat, text),
            },
    ;

    /// Whether `result` is the work that follows.
    fn verify(&self, previous: &str, length: usize, result: &str) -> (ok: bool)
        ensures
            ok == self.follows(previous@, length as nat, result@),
    ;
}

/// The number that the last result of a prime chain stands for: the genesis
/// prime 2 where it stands for none.
pub open spec fn last_prime(previous: Seq<char>) -> nat {
    match parsed_natural(previous) {
        Some(n) => n,
        None => 2,
    }
}

/// The prime oracle: the next number that the Miller-Rabin test accepts with
/// the oracle's witnesses, as a decimal numeral.
pub struct PrimeOracle {
    pub witnesses: Vec<Natural>,
}

impl PrimeOracle {
    /// The result that follows a chain whose last result is `previous`, as
    /// `produce_next` gives it. Read back, it is a number above the number
    /// of `previous`, and the one that follows it in the search.
    pub fn next_result(&self, previous: &str) -> (result: Option<String>)
        ensures
            match result {
                Some(text) => {
                    &&& parsed_natural(text@) is Some
                    &&& text@ == decimal_text(last_prime(text@))
                    &&& last_prime(previous@) < last_prime(text@) <= 2 * last_prime(previous@) + 2
                    &&& follows_in_search(
                        last_prime(previous@),
                        last_prime(text@),
                        values(self.witnesses@),
                    )
                },
                None => forall|c: nat|
                    last_prime(previous@) < c <= 2 * last_prime(previous@) + 2
                        ==> !#[trigger] crate::utils::primex::miller_rabin(c, values(self.witnesses@)),
            },
    {
        let start = get_last_prime_or_initialize(Some(previous));
        match find_next_prime_with(&start, &self.witnesses) {
            Some(p) => Some(p.to_text()),
            None => None,
        }
    }
}

impl WorkOracle for PrimeOracle {
    open spec fn follows(&self, previous: Seq<char>, length: nat, result: Seq<char>) -> bool {
        exists|p: nat|
            {
                &&& p <= 2 * last_prime(previous) + 2
                &&& #[trigger] follows_in_search(last_prime(previous), p, values(self.witnesses@))
                &&& result == decimal_text(p)
            }
    }

    fn produce_next(&self, previous: &str, length: usize) -> (result: Option<String>) {
        match self.next_result(previous) {
            Some(text) => {
                assert(follows_in_search(
                    last_prime(previous@),
                    last_prime(text@),
                    values(self.witnesses@),
                ));
                Some(text)
            },
            None => {
                assert forall|text: Seq<char>| !self.follows(previous@, length as nat, text) by {
                    if self.follows(previous@, length as nat, text) {
                        let p = choose|p: nat|
                            {
                                &&& p <= 2 * last_prime(previous@) + 2
                                &&& #[trigger] follows_in_search(
                                    last_prime(previous@),
                                    p,
                                    values(self.witnesses@),
                                )
                                &&& text == decimal_text(p)
                            };
                        assert(crate::utils::primex::miller_rabin(p, values(self.witnesses@)));
                    }
                }
                None
            },
        }
    }

    fn verify(&self, previous: &str, length: usize, result: &str) -> (ok: bool) {
        let start = get_last_prime_or_initialize(Some(previous));
        match find_next_prime_with(&start, &self.witnesses) {
            Some(p) => {
                let ok = same_text(p.to_text().as_str(), result);
                proof {
                    let ws = values(self.witnesses@);
                    let from = last_prime(previous@);
                    assert(follows_in_search(from, p@, ws));
                    if self.follows(previous@, length as nat, result@) {
                        let q = choose|q: nat|
                            {
                                &&& q <= 2 * from + 2
                                &&& #[trigger] follows_in_search(from, q, ws)
                                &&& result@ == decimal_text(q)
                            };
                        lemma_search_has_one_result(from, p@, q, ws);
                    }
                }
                ok
            },
            None => {
                proof {
                    if self.follows(previous@, length as nat, result@) {
                        let q = choose|q: nat|
                            {
                                &&& q <= 2 * last_prime(previous@) + 2
                                &&& #[trigger] follows_in_search(
                                    last_prime(previous@),
                                    q,
                                    values(self.witnesses@),
                                )
                                &&& result@ == decimal_text(q)
                            };
                        assert(crate::utils::primex::miller_rabin(q, values(self.witnesses@)));
                    }
                }
                false
            },
        }
    }
}

/// The digit oracle: the digit of pi at the position of the chain's length,
/// as a decimal numeral. Beyond the table there is no work.
pub struct PiOracle {}

impl WorkOracle for PiOracle {
    open spec fn follows(&self, previous: Seq<char>, length: nat, result: Seq<char>) -> bool {
        length < PI_DIGIT_COUNT && result == integer_text(pi_digit(length as int))
    }

    fn produce_next(&self, previous: &str, length: usize) -> (result: Option<String>) {
        if length >= PI_DIGIT_COUNT {
            return None;
        }
        Some(find_next_pi(length).to_text())
    }

    fn verify(&self, previous: &str, length: usize, result: &str) -> (ok: bool) {
        if length >= PI_DIGIT_COUNT {
            return false;
        }
        same_text(find_next_pi(length).to_text().as_str(), result)
    }
}

} // verus!
