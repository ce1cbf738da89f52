//! How often a small number divides the root of a product tree.

use vstd::prelude::*;
use vstd::arithmetic::div_mod::lemma_div_by_multiple;
use vstd::arithmetic::div_mod::lemma_div_decreases;
use vstd::arithmetic::div_mod::lemma_div_non_zero;
use vstd::arithmetic::div_mod::lemma_fundamental_div_mod;
use vstd::arithmetic::div_mod::lemma_mod_is_zero;
use vstd::arithmetic::div_mod::lemma_mod_mod;
use vstd::arithmetic::div_mod::lemma_mod_multiples_basic;
use vstd::arithmetic::div_mod::lemma_truncate_middle;
use vstd::arithmetic::power::lemma_pow0;
use vstd::arithmetic::power::lemma_pow_positive;
use vstd::arithmetic::power::pow;
use vstd::arithmetic::power2::lemma2_to64;
use vstd::arithmetic::power2::lemma_pow2_adds;
use vstd::arithmetic::power2::lemma_pow2_strictly_increases;
use vstd::arithmetic::power2::lemma_pow2_unfold;
use vstd::arithmetic::power2::pow2;

verus! {

/// The number of times that `n` divides `val`: the exponent of the largest
/// power of `n` that divides `val`. It is zero where `n < 2` or `val == 0`,
/// for which no largest power exists.
pub open spec fn multiplicity(val: nat, n: nat) -> nat
    decreases val,
{
    if n >= 2 && val >= 1 && val % n == 0 {
        proof {
            lemma_div_decreases(val as int, n as int);
        }
        1 + multiplicity(val / n, n)
    } else {
        0
    }
}

/// `pow(n, k)` unfolded once.
proof fn lemma_pow_unfold(n: nat, k: nat)
    requires
        k > 0,
    ensures
        pow(n as int, k) == n * pow(n as int, (k - 1) as nat),
{
    reveal(pow);
}

/// Where `n` divides `val`, the quotient is positive and gives `val` back.
proof fn lemma_exact_quotient(val: nat, n: nat)
    requires
        val >= 1,
        n >= 2,
        val % n == 0,
    ensures
        val / n >= 1,
        val == n * (val / n),
        2 * (val / n) <= val,
{
    lemma_mod_is_zero(val, n);
    lemma_div_non_zero(val as int, n as int);
    lemma_fundamental_div_mod(val as int, n as int);
    assert(2 * (val / n) <= n * (val / n)) by (nonlinear_arith)
        requires
            n >= 2,
            val / n >= 0,
    ;
}

/// `pow(n, k)` divides `val` exactly when `k` is at most the multiplicity of
/// `n` in `val`.
pub proof fn lemma_multiplicity_is_largest_power(val: nat, n: nat, k: nat)
    requires
        val >= 1,
        n >= 2,
    ensures
        pow(n as int, k) > 0,
        (val as int) % pow(n as int, k) == 0 <==> k <= multiplicity(val, n),
    decreases k,
{
    lemma_pow_positive(n as int, k);
    if k == 0 {
        lemma_pow0(n as int);
    } else {
        let p = pow(n as int, (k - 1) as nat);
        lemma_pow_positive(n as int, (k - 1) as nat);
        lemma_pow_unfold(n, k);
        if val % n != 0 {
            lemma_mod_mod(val as int, n as int, p);
            assert(0int % (n as int) == 0);
        } else {
            let rest = val / n;
            lemma_exact_quotient(val, n);
            lemma_truncate_middle(rest as int, n as int, p);
            lemma_multiplicity_is_largest_power(rest, n, (k - 1) as nat);
            assert(n * ((rest as int) % p) == 0 <==> (rest as int) % p == 0) by (nonlinear_arith)
                requires
                    n >= 2,
            ;
        }
    }
}

/// One more factor `n` raises the multiplicity by one.
pub proof fn lemma_multiplicity_of_multiple(val: nat, n: nat)
    requires
        val >= 1,
        n >= 2,
    ensures
        multiplicity(n * val, n) == multiplicity(val, n) + 1,
{
    assert(n * val >= 1) by (nonlinear_arith)
        requires
            val >= 1,
            n >= 2,
    ;
    lemma_mod_multiples_basic(val as int, n as int);
    lemma_div_by_multiple(val as int, n as int);
    assert(n * val == val * n) by (nonlinear_arith);
}

/// Counts how often `n` divides `val`, by dividing as long as nothing is
/// left over.
pub fn factor_of_n(val: u128, n: u8) -> (count: u8)
    requires
        val >= 1,
        n >= 2,
    ensures
        count == multiplicity(val as nat, n as nat),
        (val as int) % pow(n as int, count as nat) == 0,
        (val as int) % pow(n as int, (count + 1) as nat) != 0,
        count <= 127,
{
    let mut count: u8 = 0;
    let mut rest: u128 = val;
    proof {
        lemma2_to64();
    }
    while rest % (n as u128) == 0
        invariant
            n >= 2,
            rest >= 1,
            count <= 127,
            rest * pow2(count as nat) <= val,
            count + multiplicity(rest as nat, n as nat) == multiplicity(val as nat, n as nat),
        decreases rest,
    {
        proof {
            lemma_exact_quotient(rest as nat, n as nat);
            lemma_pow2_grows(rest as nat, (rest / (n as u128)) as nat, count as nat, val as nat);
        }
        count = count + 1;
        rest = rest / (n as u128);
    }
    proof {
        lemma_multiplicity_is_largest_power(val as nat, n as nat, count as nat);
        lemma_multiplicity_is_largest_power(val as nat, n as nat, (count + 1) as nat);
    }
    count
}

/// One more halving fits below a bound of less than `2^128` only while the
/// count of halvings stays below 128.
proof fn lemma_pow2_grows(rest: nat, next: nat, count: nat, val: nat)
    requires
        next >= 1,
        2 * next <= rest,
        rest * pow2(count) <= val,
        val <= u128::MAX,
    ensures
        next * pow2(count + 1) <= val,
        count + 1 <= 127,
{
    lemma_pow2_unfold(count + 1);
    let p = pow2(count);
    assert(next * (2 * p) <= rest * p) by (nonlinear_arith)
        requires
            2 * next <= rest,
            p >= 0,
    ;
    assert(pow2(count + 1) <= next * pow2(count + 1)) by (nonlinear_arith)
        requires
            next >= 1,
            pow2(count + 1) >= 0,
    ;
    if count + 1 >= 128 {
        lemma2_to64();
        lemma_pow2_adds(64, 64);
        if count + 1 > 128 {
            lemma_pow2_strictly_increases(128, count + 1);
        }
        assert(pow2(64) * pow2(64) > u128::MAX) by (nonlinear_arith)
            requires
                pow2(64) == 0x10000000000000000,
        ;
    }
}

} // verus!
