//! The prime oracle: the next probable prime after a number, by the
//! Miller-Rabin test. The test accepts every prime, so the search passes
//! over none.

use vstd::arithmetic::div_mod::lemma_mod_bound;
use vstd::arithmetic::div_mod::lemma_mul_mod_noop;
use vstd::arithmetic::div_mod::lemma_mul_mod_noop_left;
use vstd::arithmetic::div_mod::lemma_mul_mod_noop_right;
use vstd::arithmetic::div_mod::lemma_small_mod;
use vstd::arithmetic::power::lemma_pow0;
use vstd::arithmetic::power::lemma_pow1;
use vstd::arithmetic::power::lemma_pow_adds;
use vstd::arithmetic::power::lemma_pow_mod_noop;
use vstd::arithmetic::power::lemma_pow_multiplies;
use vstd::arithmetic::power::lemma_square_is_pow2;
use vstd::arithmetic::power::pow;
use vstd::prelude::*;
use crate::natural::parsed_natural;
use crate::utils::primes::is_prime_number;
use crate::utils::primes::lemma_fermat;
use crate::utils::primes::lemma_square_root_of_one;
use crate::natural::Natural;

verus! {

/// `base` to the power `exp`, reduced modulo `modulus`.
pub open spec fn pow_mod(base: nat, exp: nat, modulus: nat) -> nat {
    (pow(base as int, exp) % (modulus as int)) as nat
}

/// One step of square-and-multiply keeps the product of the accumulator and
/// the power that is still owed, modulo `m`.
proof fn lemma_square_and_multiply(r: int, b: int, e: nat, m: int)
    requires
        m > 0,
        e > 0,
    ensures
        e % 2 == 1 ==> ((r * b % m) * pow(b * b % m, e / 2)) % m == (r * pow(b, e)) % m,
        e % 2 == 0 ==> (r * pow(b * b % m, e / 2)) % m == (r * pow(b, e)) % m,
{
    let q = e / 2;
    let p = pow(b * b % m, q);
    let full = pow(b * b, q);
    assert(p % m == full % m) by {
        lemma_pow_mod_noop(b * b, q, m);
    }
    assert(full == pow(b, 2 * q)) by {
        lemma_square_is_pow2(b);
        lemma_pow_multiplies(b, 2, q);
    }
    if e % 2 == 0 {
        assert(e == 2 * q);
        lemma_mul_mod_noop_right(r, p, m);
        lemma_mul_mod_noop_right(r, full, m);
    } else {
        assert(e == 2 * q + 1);
        assert(pow(b, e) == full * b) by {
            lemma_pow_adds(b, 2 * q, 1);
            lemma_pow1(b);
        }
        lemma_mul_mod_noop_left(r * b, p, m);
        lemma_mul_mod_noop_right(r * b, p, m);
        lemma_mul_mod_noop_right(r * b, full, m);
        assert((r * b) * full == r * (full * b)) by (nonlinear_arith);
    }
}

/// Modular exponentiation by square-and-multiply.
pub fn mod_exp(base: &Natural, exp: &Natural, modulus: &Natural) -> (power: Natural)
    requires
        modulus@ > 0,
    ensures
        power@ == pow_mod(base@, exp@, modulus@),
{
    let zero = Natural::from_u128(0);
    let one = Natural::from_u128(1);
    let two = Natural::from_u128(2);
    let mut result = one.remainder(modulus);
    let mut square = base.remainder(modulus);
    let mut rest = exp.clone();
    proof {
        let m = modulus@ as int;
        let x = pow(square@ as int, rest@);
        lemma_pow_mod_noop(base@ as int, exp@, m);
        lemma_mul_mod_noop_left(1, x, m);
        assert(1 * x == x);
    }
    while zero.below(&rest)
        invariant
            modulus@ > 0,
            zero@ == 0,
            one@ == 1,
            two@ == 2,
            result@ < modulus@,
            square@ < modulus@,
            (result@ * pow(square@ as int, rest@)) % (modulus@ as int) == pow(base@ as int, exp@) % (
            modulus@ as int),
        decreases rest@,
    {
        proof {
            lemma_square_and_multiply(result@ as int, square@ as int, rest@, modulus@ as int);
        }
        if rest.remainder(&two).same(&one) {
            result = result.times(&square).remainder(modulus);
        }
        rest = rest.quotient(&two);
        square = square.times(&square).remainder(modulus);
    }
    proof {
        lemma_pow0(square@ as int);
        lemma_small_mod(result@, modulus@);
    }
    result
}

/// What is left of `m` when every factor 2 is taken out of it.
pub open spec fn odd_part(m: nat) -> nat
    decreases m,
{
    if m == 0 || m % 2 == 1 {
        m
    } else {
        odd_part(m / 2)
    }
}

/// Whether repeated squaring of `x` modulo `n` reaches `n - 1` while the
/// exponent, now `t`, stays below `(n - 1) / 2`.
pub open spec fn squares_reach(x: nat, n: nat, t: nat) -> bool
    decreases n - t,
{
    if t == 0 || 2 * t >= n - 1 {
        false
    } else {
        let y = (x * x) % n;
        y == n - 1 || squares_reach(y, n, 2 * t)
    }
}

/// Whether `n` passes one Miller-Rabin round with the witness `a`: with
/// `n - 1 = 2^r * d` and `d` odd, `a^d` is 1 or `n - 1` modulo `n`, or one of
/// its first `r - 1` repeated squares is `n - 1`.
pub open spec fn round_passes(n: nat, a: nat) -> bool {
    let d = odd_part((n - 1) as nat);
    let x = pow_mod(a, d, n);
    x == 1 || x == n - 1 || squares_reach(x, n, d)
}

/// The verdict on the numbers that need no witness: 0 and 1 are not prime,
/// 2 and 3 are, and no other even number is.
pub open spec fn trial_verdict(n: nat) -> Option<bool> {
    if n <= 1 {
        Some(false)
    } else if n <= 3 {
        Some(true)
    } else if n % 2 == 0 {
        Some(false)
    } else {
        None
    }
}

/// Whether `a` is a witness for `n`: it lies between 2 and `n - 2`.
pub open spec fn is_witness_for(n: nat, a: nat) -> bool {
    2 <= a <= n - 2
}

/// The verdict of the test on `n` with the given witnesses, one round for
/// each that is a witness for `n`.
pub open spec fn miller_rabin(n: nat, witnesses: Seq<nat>) -> bool {
    match trial_verdict(n) {
        Some(verdict) => verdict,
        None => forall|i: int|
            0 <= i < witnesses.len() && is_witness_for(n, #[trigger] witnesses[i])
                ==> round_passes(n, witnesses[i]),
    }
}

/// Whether the test with `k` witnesses drawn from 2 to `n - 2` can give
/// `verdict`.
pub open spec fn possible_verdict(n: nat, k: nat, verdict: bool) -> bool {
    match trial_verdict(n) {
        Some(fixed) => verdict == fixed,
        None => exists|witnesses: Seq<nat>|
            {
                &&& witnesses.len() == k
                &&& forall|i: int| 0 <= i < k ==> is_witness_for(n, #[trigger] witnesses[i])
                &&& #[trigger] miller_rabin(n, witnesses) == verdict
            },
    }
}

/// The numbers that a sequence of `Natural`s stands for.
pub open spec fn values(items: Seq<Natural>) -> Seq<nat> {
    Seq::new(items.len(), |i: int| items[i]@)
}

/// Whether doubling `t` again and again reaches `top`.
pub open spec fn doubles_to(t: nat, top: nat) -> bool
    decreases top - t,
{
    t > 0 && (t == top || (2 * t <= top && doubles_to(2 * t, top)))
}

proof fn lemma_doubles_further(t: nat, top: nat)
    requires
        doubles_to(t, top),
    ensures
        doubles_to(t, 2 * top),
    decreases top - t,
{
    if t == top {
        assert(doubles_to(2 * top, 2 * top));
    } else {
        lemma_doubles_further(2 * t, top);
    }
}

/// Doubling the odd part of a number reaches the number.
proof fn lemma_odd_part_doubles(m: nat)
    requires
        m > 0,
    ensures
        doubles_to(odd_part(m), m),
    decreases m,
{
    if m % 2 == 0 {
        lemma_odd_part_doubles(m / 2);
        lemma_doubles_further(odd_part(m / 2), m / 2);
    }
}

/// With a prime `n`, a power of `a` whose exponent doubles to `n - 1` is 1
/// or `n - 1` modulo `n`, or its repeated squares reach `n - 1`.
proof fn lemma_powers_of_prime(n: nat, a: nat, t: nat)
    requires
        is_prime_number(n),
        a % n != 0,
        doubles_to(t, (n - 1) as nat),
    ensures
        pow_mod(a, t, n) == 1 || pow_mod(a, t, n) == n - 1 || squares_reach(pow_mod(a, t, n), n, t),
    decreases n - t,
{
    let m = n as int;
    let x = pow_mod(a, t, n);
    lemma_mod_bound(pow(a as int, t), m);
    if t == n - 1 {
        lemma_fermat(a, n);
    } else {
        let y = pow_mod(a, 2 * t, n);
        assert(y == (x * x) % n) by {
            lemma_pow_adds(a as int, t, t);
            lemma_mul_mod_noop(pow(a as int, t), pow(a as int, t), m);
        }
        if 2 * t == n - 1 {
            lemma_fermat(a, n);
            lemma_square_root_of_one(n, x);
        } else {
            lemma_powers_of_prime(n, a, 2 * t);
            if y == 1 {
                lemma_square_root_of_one(n, x);
            }
        }
    }
}

/// A prime passes the round of every witness that it does not divide.
pub proof fn lemma_prime_passes_round(n: nat, a: nat)
    requires
        is_prime_number(n),
        a % n != 0,
    ensures
        round_passes(n, a),
{
    lemma_odd_part_doubles((n - 1) as nat);
    lemma_powers_of_prime(n, a, odd_part((n - 1) as nat));
}

/// The test accepts every prime, whatever the witnesses.
pub proof fn lemma_primes_pass(n: nat, witnesses: Seq<nat>)
    requires
        is_prime_number(n),
    ensures
        miller_rabin(n, witnesses),
{
    if n > 3 {
        assert(n % 2 != 0);
        assert forall|i: int|
            0 <= i < witnesses.len() && is_witness_for(n, #[trigger] witnesses[i]) implies round_passes(
            n,
            witnesses[i],
        ) by {
            lemma_small_mod(witnesses[i], n);
            lemma_prime_passes_round(n, witnesses[i]);
        }
    }
}

/// What the test can refuse is no prime.
pub proof fn lemma_refused_is_no_prime(n: nat, k: nat)
    requires
        possible_verdict(n, k, false),
    ensures
        !is_prime_number(n),
{
    if is_prime_number(n) {
        if trial_verdict(n) is None {
            let witnesses = choose|witnesses: Seq<nat>|
                {
                    &&& witnesses.len() == k
                    &&& forall|i: int| 0 <= i < k ==> is_witness_for(n, #[trigger] witnesses[i])
                    &&& #[trigger] miller_rabin(n, witnesses) == false
                };
            lemma_primes_pass(n, witnesses);
        } else {
            lemma_primes_pass(n, Seq::empty());
        }
    }
}

/// No prime lies between a number and the one that follows it in the search.
pub proof fn lemma_search_skips_no_prime(previous: nat, claimed: nat, witnesses: Seq<nat>)
    requires
        follows_in_search(previous, claimed, witnesses),
    ensures
        forall|c: nat| previous < c < claimed ==> !is_prime_number(c),
{
    assert forall|c: nat| previous < c < claimed implies !is_prime_number(c) by {
        if is_prime_number(c) {
            lemma_primes_pass(c, witnesses);
        }
    }
}

/// Takes every factor 2 out of `m`.
pub fn odd_part_of(m: &Natural) -> (d: Natural)
    requires
        m@ > 0,
    ensures
        d@ == odd_part(m@),
        d@ > 0,
{
    let zero = Natural::from_u128(0);
    let two = Natural::from_u128(2);
    let mut d = m.clone();
    while d.remainder(&two).same(&zero)
        invariant
            zero@ == 0,
            two@ == 2,
            d@ > 0,
            odd_part(d@) == odd_part(m@),
        decreases d@,
    {
        d = d.quotient(&two);
    }
    d
}

/// One round of the test on `n` with the witness `a`; `d` is the odd part
/// of `n - 1`.
pub fn passes_round(n: &Natural, d: &Natural, a: &Natural) -> (ok: bool)
    requires
        n@ >= 2,
        d@ == odd_part((n@ - 1) as nat),
    ensures
        ok == round_passes(n@, a@),
{
    let one = Natural::from_u128(1);
    let two = Natural::from_u128(2);
    let top = n.minus(&one);
    let mut x = mod_exp(a, d, n);
    if x.same(&one) || x.same(&top) {
        return true;
    }
    let mut t = d.clone();
    loop
        invariant
            n@ >= 2,
            top@ == n@ - 1,
            two@ == 2,
            round_passes(n@, a@) == squares_reach(x@, n@, t@),
        decreases n@ - t@,
    {
        let doubled = t.times(&two);
        if t.same(&Natural::from_u128(0)) || !doubled.below(&top) {
            return false;
        }
        let ghost before = x@;
        x = mod_exp(&x, &two, n);
        proof {
            lemma_square_is_pow2(before as int);
        }
        if x.same(&top) {
            return true;
        }
        t = doubled;
    }
}

/// The test on `n` with the given witnesses, one round for each that lies
/// between 2 and `n - 2`, stopping at the first round that `n` fails.
pub fn is_prime_with(n: &Natural, witnesses: &Vec<Natural>) -> (prime: bool)
    ensures
        prime == miller_rabin(n@, values(witnesses@)),
        is_prime_number(n@) ==> prime,
{
    proof {
        if is_prime_number(n@) {
            lemma_primes_pass(n@, values(witnesses@));
        }
    }
    let zero = Natural::from_u128(0);
    let one = Natural::from_u128(1);
    let two = Natural::from_u128(2);
    let three = Natural::from_u128(3);
    if !one.below(n) {
        return false;
    }
    if !three.below(n) {
        return true;
    }
    if n.remainder(&two).same(&zero) {
        return false;
    }
    let d = odd_part_of(&n.minus(&one));
    let mut i: usize = 0;
    while i < witnesses.len()
        invariant
            i <= witnesses.len(),
            n@ > 3,
            d@ == odd_part((n@ - 1) as nat),
            one@ == 1,
            two@ == 2,
            is_prime_number(n@) ==> miller_rabin(n@, values(witnesses@)),
            forall|j: int|
                0 <= j < i && is_witness_for(n@, #[trigger] values(witnesses@)[j])
                    ==> round_passes(n@, values(witnesses@)[j]),
        decreases witnesses.len() - i,
    {
        let a = &witnesses[i];
        assert(a@ == values(witnesses@)[i as int]);
        if !a.below(&two) && a.plus(&one).below(n) {
            if !passes_round(n, &d, a) {
                return false;
            }
        }
        i += 1;
    }
    true
}

/// Determines if the given number is a prime using the Miller-Rabin
/// algorithm, with `k` witnesses drawn at random from 2 to `n - 2`. A prime
/// is never refused; a composite is accepted only if every witness that was
/// drawn lets it pass.
pub fn is_prime(n: &Natural, k: u32) -> (prime: bool)
    ensures
        possible_verdict(n@, k as nat, prime),
        is_prime_number(n@) ==> prime,
{
    let zero = Natural::from_u128(0);
    let one = Natural::from_u128(1);
    let two = Natural::from_u128(2);
    let three = Natural::from_u128(3);
    if !one.below(n) {
        return false;
    }
    if !three.below(n) {
        return true;
    }
    if n.remainder(&two).same(&zero) {
        assert(!is_prime_number(n@)) by {
            assert(n@ % 2 == 0);
        }
        return false;
    }
    let d = odd_part_of(&n.minus(&one));
    let span = n.minus(&three);
    let ghost mut drawn: Seq<nat> = Seq::empty();
    let mut i: u32 = 0;
    while i < k
        invariant
            i <= k,
            n@ > 3,
            trial_verdict(n@) is None,
            d@ == odd_part((n@ - 1) as nat),
            drawn.len() == i,
            two@ == 2,
            span@ == n@ - 3,
            forall|j: int| 0 <= j < i ==> is_witness_for(n@, #[trigger] drawn[j]),
            forall|j: int| 0 <= j < i ==> round_passes(n@, #[trigger] drawn[j]),
        decreases k - i,
    {
        let a = Natural::random_below(&span).plus(&two);
        if !passes_round(n, &d, &a) {
            proof {
                let failing = Seq::new(
                    k as nat,
                    |j: int|
                        if j < i {
                            drawn[j]
                        } else {
                            a@
                        },
                );
                assert(failing[i as int] == a@);
                assert(!miller_rabin(n@, failing));
                if is_prime_number(n@) {
                    lemma_small_mod(a@, n@);
                    lemma_prime_passes_round(n@, a@);
                }
            }
            return false;
        }
        proof {
            drawn = drawn.push(a@);
        }
        i += 1;
    }
    proof {
        assert(miller_rabin(n@, drawn));
    }
    true
}

/// Finds the next prime number after `start`: the first number above it
/// that the test accepts. No prime is passed over, so what is found is at
/// most the next prime; it is the next prime unless the test accepts a
/// composite before it. The search ends at `2 * start + 2`, below which a
/// prime lies; `None` when the test has refused every number up to there.
pub fn find_next_prime(start: &Natural, k: u32) -> (found: Option<Natural>)
    ensures
        match found {
            Some(p) => {
                &&& start@ < p@ <= 2 * start@ + 2
                &&& possible_verdict(p@, k as nat, true)
                &&& forall|c: nat| start@ < c < p@ ==> possible_verdict(c, k as nat, false)
                &&& forall|c: nat| start@ < c < p@ ==> !is_prime_number(c)
            },
            None => {
                &&& forall|c: nat|
                    start@ < c <= 2 * start@ + 2 ==> possible_verdict(c, k as nat, false)
                &&& forall|c: nat| start@ < c <= 2 * start@ + 2 ==> !is_prime_number(c)
            },
        },
{
    let one = Natural::from_u128(1);
    let two = Natural::from_u128(2);
    let bound = start.times(&two).plus(&two);
    let mut candidate = start.plus(&one);
    while !bound.below(&candidate)
        invariant
            one@ == 1,
            bound@ == 2 * start@ + 2,
            start@ < candidate@ <= bound@ + 1,
            forall|c: nat| start@ < c < candidate@ ==> possible_verdict(c, k as nat, false),
            forall|c: nat| start@ < c < candidate@ ==> !is_prime_number(c),
        decreases bound@ + 1 - candidate@,
    {
        if is_prime(&candidate, k) {
            return Some(candidate);
        }
        candidate = candidate.plus(&one);
    }
    None
}

/// Whether `claimed` follows `previous` in the search with the given
/// witnesses: the test accepts it and refuses every number between the two.
pub open spec fn follows_in_search(previous: nat, claimed: nat, witnesses: Seq<nat>) -> bool {
    &&& previous < claimed
    &&& miller_rabin(claimed, witnesses)
    &&& forall|c: nat| previous < c < claimed ==> !#[trigger] miller_rabin(c, witnesses)
}

/// Checks a claimed result of the search by running the test again, with
/// the given witnesses, on the claimed number and on every number between it
/// and the one before.
pub fn is_next_prime_with(previous: &Natural, claimed: &Natural, witnesses: &Vec<Natural>) -> (ok:
    bool)
    ensures
        ok == follows_in_search(previous@, claimed@, values(witnesses@)),
{
    if !previous.below(claimed) {
        return false;
    }
    if !is_prime_with(claimed, witnesses) {
        return false;
    }
    let one = Natural::from_u128(1);
    let mut candidate = previous.plus(&one);
    while candidate.below(claimed)
        invariant
            one@ == 1,
            previous@ < candidate@ <= claimed@,
            forall|c: nat|
                previous@ < c < candidate@ ==> !#[trigger] miller_rabin(c, values(witnesses@)),
        decreases claimed@ - candidate@,
    {
        if is_prime_with(&candidate, witnesses) {
            return false;
        }
        candidate = candidate.plus(&one);
    }
    true
}

/// The search with fixed witnesses: the first number above `start` that the
/// test accepts with them, up to `2 * start + 2`.
pub fn find_next_prime_with(start: &Natural, witnesses: &Vec<Natural>) -> (found: Option<Natural>)
    ensures
        match found {
            Some(p) => {
                &&& p@ <= 2 * start@ + 2
                &&& follows_in_search(start@, p@, values(witnesses@))
                &&& forall|c: nat| start@ < c < p@ ==> !is_prime_number(c)
            },
            None => {
                &&& forall|c: nat|
                    start@ < c <= 2 * start@ + 2 ==> !#[trigger] miller_rabin(
                        c,
                        values(witnesses@),
                    )
                &&& forall|c: nat| start@ < c <= 2 * start@ + 2 ==> !is_prime_number(c)
            },
        },
{
    let one = Natural::from_u128(1);
    let two = Natural::from_u128(2);
    let bound = start.times(&two).plus(&two);
    let mut candidate = start.plus(&one);
    while !bound.below(&candidate)
        invariant
            one@ == 1,
            bound@ == 2 * start@ + 2,
            start@ < candidate@ <= bound@ + 1,
            forall|c: nat|
                start@ < c < candidate@ ==> !#[trigger] miller_rabin(c, values(witnesses@)),
        decreases bound@ + 1 - candidate@,
    {
        if is_prime_with(&candidate, witnesses) {
            proof {
                lemma_search_skips_no_prime(start@, candidate@, values(witnesses@));
            }
            return Some(candidate);
        }
        candidate = candidate.plus(&one);
    }
    proof {
        assert forall|c: nat| start@ < c <= 2 * start@ + 2 implies !is_prime_number(c) by {
            if is_prime_number(c) {
                lemma_primes_pass(c, values(witnesses@));
            }
        }
    }
    None
}

/// Two numbers that follow the same number in the search are the same.
pub proof fn lemma_search_has_one_result(previous: nat, first: nat, second: nat, witnesses: Seq<nat>)
    requires
        follows_in_search(previous, first, witnesses),
        follows_in_search(previous, second, witnesses),
    ensures
        first == second,
{
    if first < second {
        assert(!miller_rabin(first, witnesses));
    } else if second < first {
        assert(!miller_rabin(second, witnesses));
    }
}

/// Initializes the genesis block with the prime number 2.
pub fn initialize_genesis_block() -> (genesis: Natural)
    ensures
        genesis@ == 2,
{
    Natural::from_u128(2)
}

/// The number that a block's result stands for, or the genesis prime where
/// it stands for none.
pub fn prime_or_genesis(parsed: Option<Natural>) -> (value: Natural)
    ensures
        value@ == match parsed {
            Some(n) => n@,
            None => 2,
        },
{
    match parsed {
        Some(n) => n,
        None => initialize_genesis_block(),
    }
}

/// Retrieves the prime number from the last block's result, or the genesis
/// prime where there is no block or its result is no number.
pub fn get_last_prime_or_initialize(last_block_result: Option<&str>) -> (value: Natural)
    ensures
        value@ == match last_block_result {
            Some(text) => match parsed_natural(text@) {
                Some(n) => n,
                None => 2,
            },
            None => 2,
        },
{
    match last_block_result {
        Some(text) => prime_or_genesis(Natural::parsed(text)),
        None => initialize_genesis_block(),
    }
}

} // verus!
