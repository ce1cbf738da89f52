//! Why the multiplicity of a prime in the root of a product tree counts the
//! leaves that hold it.

use vstd::prelude::*;
use vstd::arithmetic::div_mod::lemma_fundamental_div_mod;
use vstd::arithmetic::div_mod::lemma_mod_multiples_basic;
use vstd::arithmetic::div_mod::lemma_small_mod;
use crate::factor::lemma_multiplicity_of_multiple;
use crate::factor::multiplicity;
use crate::product_tree::product;
use crate::product_tree::wrapped_product;

verus! {

/// `p` is at least two and no number strictly between one and `p` divides
/// it.
pub open spec fn is_prime(p: nat) -> bool {
    &&& p >= 2
    &&& forall|d: nat| 1 < d < p ==> #[trigger] (p % d) != 0
}

/// Number of entries of `weights` that equal `weight`.
pub open spec fn occurrences(weights: Seq<u128>, weight: nat) -> nat
    decreases weights.len(),
{
    if weights.len() == 0 {
        0
    } else {
        occurrences(weights.drop_last(), weight) + if weights.last() == weight {
            1nat
        } else {
            0nat
        }
    }
}

/// A multiple of `p` leaves nothing over.
proof fn lemma_multiple_leaves_nothing(p: nat, x: int)
    requires
        p > 0,
    ensures
        (p * x) % (p as int) == 0,
{
    lemma_mod_multiples_basic(x, p as int);
    assert(p * x == x * p) by (nonlinear_arith);
}

/// What divides exactly is a multiple.
proof fn lemma_divisible_is_multiple(v: nat, p: nat)
    requires
        p > 0,
        v % p == 0,
    ensures
        v == p * (v / p),
{
    lemma_fundamental_div_mod(v as int, p as int);
}

/// A prime that divides `r * b` for some `0 < r < p` divides `b`.
proof fn lemma_prime_divides_cofactor(p: nat, r: nat, b: nat)
    requires
        is_prime(p),
        0 < r < p,
        (r * b) % p == 0,
    ensures
        b % p == 0,
    decreases r,
{
    if r == 1 {
        assert(r * b == b) by (nonlinear_arith)
            requires
                r == 1,
        ;
    } else {
        let q = p / r;
        let rest = p % r;
        lemma_fundamental_div_mod(p as int, r as int);
        let k = (r * b) / p;
        lemma_divisible_is_multiple(r * b, p);
        assert(rest * b == p * (b - q * k)) by (nonlinear_arith)
            requires
                p == r * q + rest,
                r * b == p * k,
        ;
        lemma_multiple_leaves_nothing(p, b - q * k);
        lemma_prime_divides_cofactor(p, rest, b);
    }
}

/// A prime that divides a product divides one of the factors.
pub proof fn lemma_prime_divides_product(p: nat, a: nat, b: nat)
    requires
        is_prime(p),
        (a * b) % p == 0,
    ensures
        a % p == 0 || b % p == 0,
{
    let r = a % p;
    if r != 0 {
        let q = a / p;
        let k = (a * b) / p;
        lemma_fundamental_div_mod(a as int, p as int);
        lemma_divisible_is_multiple(a * b, p);
        assert(r * b == p * (k - q * b)) by (nonlinear_arith)
            requires
                a == p * q + r,
                a * b == p * k,
        ;
        lemma_multiple_leaves_nothing(p, k - q * b);
        lemma_prime_divides_cofactor(p, r, b);
    }
}

/// A factor that a prime does not divide adds nothing to its multiplicity.
proof fn lemma_multiplicity_ignores_stranger(p: nat, a: nat, b: nat)
    requires
        is_prime(p),
        a >= 1,
        b >= 1,
        a % p != 0,
    ensures
        multiplicity(a * b, p) == multiplicity(b, p),
    decreases b,
{
    assert(a * b >= 1) by (nonlinear_arith)
        requires
            a >= 1,
            b >= 1,
    ;
    if b % p == 0 {
        let rest = b / p;
        lemma_divisible_is_multiple(b, p);
        assert(rest >= 1) by (nonlinear_arith)
            requires
                b == p * rest,
                b >= 1,
                rest >= 0,
        ;
        assert(rest < b) by (nonlinear_arith)
            requires
                b == p * rest,
                rest >= 1,
                p >= 2,
        ;
        assert(a * b == p * (a * rest)) by (nonlinear_arith)
            requires
                b == p * rest,
        ;
        assert(a * rest >= 1) by (nonlinear_arith)
            requires
                a >= 1,
                rest >= 1,
        ;
        lemma_multiplicity_of_multiple(a * rest, p);
        lemma_multiplicity_of_multiple(rest, p);
        lemma_multiplicity_ignores_stranger(p, a, rest);
    } else {
        if (a * b) % p == 0 {
            lemma_prime_divides_product(p, a, b);
        }
    }
}

/// The multiplicity of a prime in a product is the sum of its
/// multiplicities in the factors.
pub proof fn lemma_multiplicity_of_product(p: nat, a: nat, b: nat)
    requires
        is_prime(p),
        a >= 1,
        b >= 1,
    ensures
        multiplicity(a * b, p) == multiplicity(a, p) + multiplicity(b, p),
    decreases a,
{
    if a % p == 0 {
        let rest = a / p;
        lemma_divisible_is_multiple(a, p);
        assert(rest >= 1) by (nonlinear_arith)
            requires
                a == p * rest,
                a >= 1,
                rest >= 0,
        ;
        assert(rest < a) by (nonlinear_arith)
            requires
                a == p * rest,
                rest >= 1,
                p >= 2,
        ;
        assert(a * b == p * (rest * b)) by (nonlinear_arith)
            requires
                a == p * rest,
        ;
        assert(rest * b >= 1) by (nonlinear_arith)
            requires
                rest >= 1,
                b >= 1,
        ;
        lemma_multiplicity_of_multiple(rest * b, p);
        lemma_multiplicity_of_multiple(rest, p);
        lemma_multiplicity_of_product(p, rest, b);
    } else {
        lemma_multiplicity_ignores_stranger(p, a, b);
    }
}

/// A prime has multiplicity one in itself, and none in one or in another
/// prime.
pub proof fn lemma_multiplicity_in_weight(p: nat, weight: nat)
    requires
        is_prime(p),
        weight == 1 || is_prime(weight),
    ensures
        multiplicity(weight, p) == if weight == p {
            1nat
        } else {
            0nat
        },
{
    if weight == p {
        lemma_multiplicity_of_multiple(1, p);
        lemma_small_mod(1, p);
    } else if weight < p {
        lemma_small_mod(weight, p);
    }
}

/// The multiplicity of a prime in the product of weights that are each one
/// or a prime is the number of weights that equal it.
pub proof fn lemma_multiplicity_counts_occurrences(weights: Seq<u128>, p: nat)
    requires
        is_prime(p),
        forall|i: int|
            0 <= i < weights.len() ==> weights[i] == 1 || is_prime(#[trigger] weights[i] as nat),
    ensures
        product(weights) >= 1,
        multiplicity(product(weights), p) == occurrences(weights, p),
    decreases weights.len(),
{
    if weights.len() == 0 {
        lemma_small_mod(1, p);
    } else {
        let front = weights.drop_last();
        let last = weights.last() as nat;
        lemma_multiplicity_counts_occurrences(front, p);
        lemma_multiplicity_in_weight(p, last);
        assert(product(front) * last >= 1) by (nonlinear_arith)
            requires
                product(front) >= 1,
                last >= 1,
        ;
        lemma_multiplicity_of_product(p, product(front), last);
    }
}

/// Where the product of the weights stays below `2^128`, the multiplicity of
/// a prime in the root of the product tree is the number of leaves that hold
/// it.
pub proof fn lemma_root_counts_occurrences(weights: Seq<u128>, p: nat)
    requires
        is_prime(p),
        forall|i: int|
            0 <= i < weights.len() ==> weights[i] == 1 || is_prime(#[trigger] weights[i] as nat),
        product(weights) <= u128::MAX,
    ensures
        wrapped_product(weights) >= 1,
        multiplicity(wrapped_product(weights) as nat, p) == occurrences(weights, p),
{
    lemma_multiplicity_counts_occurrences(weights, p);
    lemma_small_mod(product(weights), (u128::MAX as nat + 1) as nat);
}

} // verus!
