//! Big-endian byte strings of unsigned integers.

use vstd::prelude::*;
use vstd::arithmetic::div_mod::lemma_div_denominator;
use vstd::arithmetic::div_mod::lemma_fundamental_div_mod;

verus! {

/// `256` to the power `k`.
pub open spec fn pow256(k: nat) -> nat
    decreases k,
{
    if k == 0 {
        1
    } else {
        256 * pow256((k - 1) as nat)
    }
}

/// The digit of weight `256^k` in the base-256 expansion of `n`.
pub open spec fn be_digit(n: nat, k: nat) -> u8 {
    ((n / pow256(k)) % 256) as u8
}

/// The `width` least significant base-256 digits of `n`, most significant
/// first.
pub open spec fn be_bytes(n: nat, width: nat) -> Seq<u8> {
    Seq::new(width, |i: int| be_digit(n, (width - 1 - i) as nat))
}

/// The number that a big-endian byte string stands for.
pub open spec fn be_value(bytes: Seq<u8>) -> nat
    decreases bytes.len(),
{
    if bytes.len() == 0 {
        0
    } else {
        256 * be_value(bytes.drop_last()) + bytes.last() as nat
    }
}

/// Powers of 256 are positive.
pub proof fn lemma_pow256_positive(k: nat)
    ensures
        pow256(k) > 0,
    decreases k,
{
    if k > 0 {
        lemma_pow256_positive((k - 1) as nat);
    }
}

/// Dropping the last of `width + 1` big-endian bytes of `n` leaves the
/// `width` big-endian bytes of `n / 256`.
proof fn lemma_be_bytes_drop_last(n: nat, width: nat)
    ensures
        be_bytes(n, width + 1).drop_last() == be_bytes(n / 256, width),
        be_bytes(n, width + 1).last() == (n % 256) as u8,
{
    let long = be_bytes(n, width + 1).drop_last();
    let short = be_bytes(n / 256, width);
    assert forall|i: int| 0 <= i < width implies long[i] == short[i] by {
        let k = (width - 1 - i) as nat;
        lemma_pow256_positive(k);
        lemma_div_denominator(n as int, 256, pow256(k) as int);
    }
    assert(pow256(0) == 1);
}

/// The big-endian bytes of `n` stand for `n`, as long as `n` fits in them.
pub proof fn lemma_be_value_of_be_bytes(n: nat, width: nat)
    requires
        n < pow256(width),
    ensures
        be_value(be_bytes(n, width)) == n,
    decreases width,
{
    if width > 0 {
        let w = (width - 1) as nat;
        lemma_be_bytes_drop_last(n, w);
        lemma_fundamental_div_mod(n as int, 256);
        lemma_be_value_of_be_bytes(n / 256, w);
    }
}

/// The `width` least significant bytes of `n`, most significant first.
pub fn be_bytes_of(n: u128, width: usize) -> (bytes: Vec<u8>)
    ensures
        bytes@ == be_bytes(n as nat, width as nat),
{
    let mut low_first: Vec<u8> = Vec::new();
    let mut rest: u128 = n;
    let mut k: usize = 0;
    assert(pow256(0) == 1);
    while k < width
        invariant
            k <= width,
            low_first@.len() == k,
            rest == n as nat / pow256(k as nat),
            forall|j: int| 0 <= j < k ==> low_first@[j] == be_digit(n as nat, j as nat),
        decreases width - k,
    {
        proof {
            lemma_pow256_positive(k as nat);
            lemma_div_denominator(n as int, pow256(k as nat) as int, 256);
        }
        low_first.push((rest % 256) as u8);
        rest = rest / 256;
        k = k + 1;
    }
    let mut bytes: Vec<u8> = Vec::new();
    let mut i: usize = 0;
    while i < width
        invariant
            i <= width,
            low_first@.len() == width,
            bytes@.len() == i,
            forall|j: int| 0 <= j < width ==> low_first@[j] == be_digit(n as nat, j as nat),
            forall|j: int| 0 <= j < i ==> bytes@[j] == be_digit(n as nat, (width - 1 - j) as nat),
        decreases width - i,
    {
        bytes.push(low_first[width - 1 - i]);
        i = i + 1;
    }
    bytes
}

/// The sixteen big-endian bytes of `value`.
pub fn u128_to_be_bytes(value: u128) -> (bytes: [u8; 16])
    ensures
        bytes@ == be_bytes(value as nat, 16),
{
    let digits = be_bytes_of(value, 16);
    let mut bytes = [0u8; 16];
    let mut i: usize = 0;
    while i < 16
        invariant
            i <= 16,
            digits@.len() == 16,
            forall|j: int| 0 <= j < i ==> bytes@[j] == digits@[j],
        decreases 16 - i,
    {
        bytes[i] = digits[i];
        i = i + 1;
    }
    bytes
}

/// The number that sixteen big-endian bytes stand for.
pub fn u128_from_be_bytes(bytes: &[u8; 16]) -> (value: u128)
    ensures
        value == be_value(bytes@),
{
    let mut value: u128 = 0;
    let mut i: usize = 0;
    while i < 16
        invariant
            i <= 16,
            value == be_value(bytes@.take(i as int)),
            value < pow256(i as nat),
        decreases 16 - i,
    {
        proof {
            let next = bytes@.take(i + 1);
            assert(next.drop_last() =~= bytes@.take(i as int));
            assert(next.last() == bytes@[i as int]);
            lemma_pow256_positive(i as nat);
            lemma_pow256_sixteen();
            lemma_pow256_increases((i + 1) as nat, 16);
        }
        value = value * 256 + bytes[i] as u128;
        i = i + 1;
    }
    assert(bytes@.take(16) =~= bytes@);
    value
}

/// `256^16` is `2^128`.
pub proof fn lemma_pow256_sixteen()
    ensures
        pow256(16) == u128::MAX + 1,
{
    reveal_with_fuel(pow256, 17);
}

/// Powers of 256 grow with the exponent.
pub proof fn lemma_pow256_increases(low: nat, high: nat)
    requires
        low <= high,
    ensures
        pow256(low) <= pow256(high),
    decreases high,
{
    if low < high {
        lemma_pow256_increases(low, (high - 1) as nat);
    }
}

/// Sixteen big-endian bytes hold every `u128` without loss.
pub proof fn lemma_u128_round_trip(value: u128)
    ensures
        be_value(be_bytes(value as nat, 16)) == value,
{
    lemma_pow256_sixteen();
    lemma_be_value_of_be_bytes(value as nat, 16);
}

} // verus!
