//! Prime numbers, and why the Miller-Rabin test accepts every one of them.

use vstd::arithmetic::div_mod::lemma_fundamental_div_mod;
use vstd::arithmetic::div_mod::lemma_mod_bound;
use vstd::arithmetic::div_mod::lemma_mod_equivalence;
use vstd::arithmetic::div_mod::lemma_mod_multiples_basic;
use vstd::arithmetic::div_mod::lemma_mod_multiples_vanish;
use vstd::arithmetic::div_mod::lemma_mul_mod_noop_left;
use vstd::arithmetic::div_mod::lemma_mul_mod_noop_right;
use vstd::arithmetic::div_mod::lemma_small_mod;
use vstd::arithmetic::power::lemma_pow0;
use vstd::arithmetic::power::lemma_pow1;
use vstd::arithmetic::power::lemma_pow_adds;
use vstd::arithmetic::power::lemma_pow_positive;
use vstd::arithmetic::power::pow;
use vstd::prelude::*;
use vstd::seq_lib::commutative_foldl;
use vstd::seq_lib::lemma_fold_left_permutation;
use vstd::set_lib::lemma_int_range;
use vstd::set_lib::lemma_set_subset_finite;
use vstd::set_lib::lemma_subset_equality;
use vstd::set_lib::set_int_range;

verus! {

/// Whether `p` is a prime number: at least 2, and a multiple of no number
/// between 1 and itself.
pub open spec fn is_prime_number(p: nat) -> bool {
    p >= 2 && forall|d: nat| 1 < d < p ==> #[trigger] (p % d) != 0
}

/// A prime that divides a product divides one of the factors.
pub proof fn lemma_prime_divides_factor(p: nat, a: nat, b: nat)
    requires
        is_prime_number(p),
        (a * b) % p == 0,
    ensures
        a % p == 0 || b % p == 0,
    decreases a,
{
    if a % p == 0 {
    } else if a >= p {
        lemma_mul_mod_noop_left(a as int, b as int, p as int);
        lemma_prime_divides_factor(p, a % p, b);
        lemma_small_mod(a % p, p);
    } else if a == 1 {
        assert(a * b == b) by (nonlinear_arith)
            requires
                a == 1,
        ;
    } else {
        let q = p / a;
        let r = p % a;
        assert(r != 0);
        lemma_fundamental_div_mod(p as int, a as int);
        let k = (a * b) / p;
        lemma_fundamental_div_mod((a * b) as int, p as int);
        assert(r * b == p * (b - q * k)) by (nonlinear_arith)
            requires
                p == a * q + r,
                a * b == p * k,
        ;
        lemma_mod_multiples_basic(b - q * k, p as int);
        assert((b - q * k) * p == p * (b - q * k)) by (nonlinear_arith);
        lemma_prime_divides_factor(p, r, b);
        lemma_small_mod(r, p);
    }
}

/// Modulo a prime, 1 has no square roots but 1 and -1.
pub proof fn lemma_square_root_of_one(p: nat, x: nat)
    requires
        is_prime_number(p),
        x < p,
        (x * x) % p == 1,
    ensures
        x == 1 || x == p - 1,
{
    if x == 0 {
        assert(x * x == 0) by (nonlinear_arith)
            requires
                x == 0,
        ;
        lemma_small_mod(0, p);
    } else {
        let k = (x * x) / p;
        lemma_fundamental_div_mod((x * x) as int, p as int);
        let below = (x - 1) as nat;
        let above = x + 1;
        assert(below * above == p * k) by (nonlinear_arith)
            requires
                x * x == p * k + 1,
                below == x - 1,
                above == x + 1,
        ;
        lemma_mod_multiples_basic(k as int, p as int);
        assert(k * p == p * k) by (nonlinear_arith);
        lemma_prime_divides_factor(p, below, above);
        if below % p == 0 {
            lemma_small_mod(below, p);
        } else if above < p {
            lemma_small_mod(above, p);
        }
    }
}

/// Multiplies an accumulator by a number.
pub open spec fn times() -> spec_fn(int, int) -> int {
    |product: int, x: int| product * x
}

/// The product of the numbers of a sequence.
pub open spec fn product(numbers: Seq<int>) -> int {
    numbers.fold_left(1int, times())
}

/// The numbers from 1 to `k`.
pub open spec fn one_to(k: nat) -> Seq<int> {
    Seq::new(k, |i: int| i + 1)
}

/// The multiples of `a` by 1 to `k`, each reduced modulo `p`.
pub open spec fn multiples(a: nat, k: nat, p: nat) -> Seq<int> {
    Seq::new(k, |i: int| (a * (i + 1)) % (p as int))
}

proof fn lemma_product_push(numbers: Seq<int>, x: int)
    ensures
        product(numbers.push(x)) == product(numbers) * x,
{
    assert(numbers.push(x).drop_last() == numbers);
}

/// The product of the numbers below a prime is positive and no multiple of
/// the prime.
proof fn lemma_product_below_prime(p: nat, k: nat)
    requires
        is_prime_number(p),
        k < p,
    ensures
        product(one_to(k)) > 0,
        product(one_to(k)) % (p as int) != 0,
    decreases k,
{
    if k == 0 {
        assert(one_to(0).len() == 0);
        lemma_small_mod(1, p);
    } else {
        let earlier = one_to((k - 1) as nat);
        lemma_product_below_prime(p, (k - 1) as nat);
        assert(one_to(k) == earlier.push(k as int));
        lemma_product_push(earlier, k as int);
        let before = product(earlier) as nat;
        assert(before * k > 0) by (nonlinear_arith)
            requires
                before > 0,
                k > 0,
        ;
        if (before * k) % p == 0 {
            lemma_prime_divides_factor(p, before, k);
            lemma_small_mod(k, p);
        }
    }
}

/// The product of the first `k` multiples of `a` is, modulo `p`, the `k`-th
/// power of `a` times the product of 1 to `k`.
proof fn lemma_product_of_multiples(a: nat, k: nat, p: nat)
    requires
        p > 0,
    ensures
        product(multiples(a, k, p)) % (p as int) == (pow(a as int, k) * product(one_to(k))) % (
        p as int),
    decreases k,
{
    let m = p as int;
    if k == 0 {
        assert(multiples(a, 0, p).len() == 0);
        assert(one_to(0).len() == 0);
        lemma_pow0(a as int);
    } else {
        let j = (k - 1) as nat;
        lemma_product_of_multiples(a, j, p);
        let earlier = multiples(a, j, p);
        let numbers = one_to(j);
        let step: int = a as int * k as int;
        assert(multiples(a, k, p) == earlier.push(step % m));
        assert(one_to(k) == numbers.push(k as int));
        lemma_product_push(earlier, step % m);
        lemma_product_push(numbers, k as int);
        let left = product(earlier);
        let right = pow(a as int, j) * product(numbers);
        lemma_mul_mod_noop_right(left, step, m);
        lemma_mul_mod_noop_left(left, step, m);
        lemma_mul_mod_noop_left(right, step, m);
        assert(pow(a as int, k) == pow(a as int, j) * a) by {
            lemma_pow_adds(a as int, j, 1);
            lemma_pow1(a as int);
        }
        assert(right * step == pow(a as int, k) * (product(numbers) * k)) by (nonlinear_arith)
            requires
                right == pow(a as int, j) * product(numbers),
                pow(a as int, k) == pow(a as int, j) * a,
                step == a * k,
        ;
    }
}

/// Modulo a prime, the multiples of a number that the prime does not divide
/// by 1 to `p - 1` are the numbers 1 to `p - 1` in another order.
proof fn lemma_multiples_are_a_permutation(a: nat, p: nat)
    requires
        is_prime_number(p),
        a % p != 0,
    ensures
        multiples(a, (p - 1) as nat, p).to_multiset() == one_to((p - 1) as nat).to_multiset(),
{
    let k = (p - 1) as nat;
    let m = p as int;
    let ours = multiples(a, k, p);
    let plain = one_to(k);
    assert forall|i: int| 0 <= i < k implies 1 <= #[trigger] ours[i] < p by {
        lemma_mod_bound(a * (i + 1), m);
        if (a * (i + 1)) % m == 0 {
            lemma_prime_divides_factor(p, a, (i + 1) as nat);
            lemma_small_mod((i + 1) as nat, p);
        }
    }
    assert forall|i: int, j: int| 0 <= i < k && 0 <= j < k && i != j implies ours[i] != ours[j] by {
        if ours[i] == ours[j] {
            let low = if i < j {
                i
            } else {
                j
            };
            let high = if i < j {
                j
            } else {
                i
            };
            let gap = (high - low) as nat;
            lemma_mod_equivalence(a * (high + 1), a * (low + 1), m);
            assert(a * (high + 1) - a * (low + 1) == a * gap) by (nonlinear_arith)
                requires
                    gap == high - low,
            ;
            lemma_prime_divides_factor(p, a, gap);
            lemma_small_mod(gap, p);
        }
    }
    assert(ours.no_duplicates());
    assert(plain.no_duplicates());
    ours.unique_seq_to_set();
    lemma_int_range(1, m);
    let range = set_int_range(1, m);
    assert(ours.to_set().subset_of(range)) by {
        assert forall|x: int| ours.to_set().contains(x) implies range.contains(x) by {
            let i = choose|i: int| 0 <= i < ours.len() && ours[i] == x;
            assert(1 <= ours[i] < p);
        }
    }
    lemma_set_subset_finite(range, ours.to_set());
    lemma_subset_equality(ours.to_set(), range);
    assert(plain.to_set() =~= range) by {
        assert forall|x: int| range.contains(x) implies plain.to_set().contains(x) by {
            assert(plain[x - 1] == x);
        }
    }
    ours.lemma_multiset_has_no_duplicates();
    plain.lemma_multiset_has_no_duplicates();
    ours.to_multiset_ensures();
    plain.to_multiset_ensures();
    assert forall|x: int| ours.to_multiset().count(x) == plain.to_multiset().count(x) by {
        assert(ours.to_set().contains(x) == plain.to_set().contains(x));
        assert(ours.contains(x) == plain.contains(x));
    }
    assert(ours.to_multiset() =~= plain.to_multiset());
}

/// Fermat's little theorem: modulo a prime `p`, the power `p - 1` of a
/// number that `p` does not divide is 1.
pub proof fn lemma_fermat(a: nat, p: nat)
    requires
        is_prime_number(p),
        a % p != 0,
    ensures
        pow(a as int, (p - 1) as nat) % (p as int) == 1,
{
    let k = (p - 1) as nat;
    let m = p as int;
    let power = pow(a as int, k);
    let plain = product(one_to(k));
    lemma_product_of_multiples(a, k, p);
    lemma_multiples_are_a_permutation(a, p);
    assert(commutative_foldl(times())) by {
        assert forall|x: int, y: int, v: int| #[trigger]
            times()(times()(v, x), y) == times()(times()(v, y), x) by {
            assert((v * x) * y == (v * y) * x) by (nonlinear_arith);
        }
    }
    lemma_fold_left_permutation(multiples(a, k, p), one_to(k), times(), 1int);
    assert(product(multiples(a, k, p)) == plain);
    lemma_product_below_prime(p, k);
    assert(a > 0) by {
        if a == 0 {
            lemma_small_mod(0, p);
        }
    }
    lemma_pow_positive(a as int, k);
    // plain is congruent to power * plain, so the prime divides (power - 1) * plain
    lemma_mod_equivalence(power * plain, plain, m);
    assert(power * plain - plain == (power - 1) * plain) by (nonlinear_arith);
    let rest = (power - 1) as nat;
    lemma_prime_divides_factor(p, rest, plain as nat);
    // power - 1 is a multiple of the prime
    let q = rest / p;
    lemma_fundamental_div_mod(rest as int, m);
    assert(power == m * q + 1);
    lemma_mod_multiples_vanish(q as int, 1, m);
    lemma_small_mod(1, p);
}

} // verus!
