//! Length prefixes of RLP payloads.

use vstd::prelude::*;
use vstd::std_specs::bits::u64_leading_zeros;
use vstd::arithmetic::div_mod::lemma_fundamental_div_mod;
use vstd::arithmetic::div_mod::lemma_small_mod;
use crate::big_endian::be_bytes;
use crate::big_endian::lemma_pow256_positive;
use crate::big_endian::pow256;

verus! {

/// Number of bytes in the shortest big-endian representation of `n`.
/// Zero takes one byte.
pub open spec fn byte_width(n: nat) -> nat
    decreases n,
{
    if n < 256 {
        1
    } else {
        1 + byte_width(n / 256)
    }
}

/// Number of length bytes that the prefix of a payload of `payload_length`
/// bytes is sized for: one for the short form, otherwise the byte width of the
/// length itself.
pub open spec fn spec_length_of_length(payload_length: nat) -> nat {
    if payload_length < 56 {
        1
    } else {
        byte_width(payload_length)
    }
}

/// `byte_width(n)` is the least `w >= 1` with `n < 256^w`.
pub proof fn lemma_byte_width_bounds(n: nat)
    ensures
        byte_width(n) >= 1,
        n < pow256(byte_width(n)),
        n >= 256 ==> pow256((byte_width(n) - 1) as nat) <= n,
    decreases n,
{
    reveal_with_fuel(pow256, 2);
    if n >= 256 {
        lemma_byte_width_bounds(n / 256);
    }
}

/// The length of a payload of at least 56 bytes is written in as few bytes
/// as can hold it: its first byte is not zero.
pub proof fn lemma_length_bytes_are_minimal(payload_length: nat)
    requires
        payload_length >= 56,
    ensures
        be_bytes(payload_length, spec_length_of_length(payload_length))[0] != 0,
{
    let width = byte_width(payload_length);
    let unit = pow256((width - 1) as nat);
    let lead = payload_length / unit;
    lemma_byte_width_bounds(payload_length);
    lemma_pow256_positive((width - 1) as nat);
    lemma_fundamental_div_mod(payload_length as int, unit as int);
    assert(1 <= lead < 256) by (nonlinear_arith)
        requires
            unit > 0,
            unit <= payload_length < 256 * unit,
            payload_length == unit * lead + payload_length % unit,
            0 <= payload_length % unit < unit,
    ;
    lemma_small_mod(lead, 256);
}

/// Number of significant bits of `x`.
spec fn bit_length(x: u64) -> int {
    64 - u64_leading_zeros(x)
}

/// Dropping the lowest byte drops eight significant bits.
proof fn lemma_bit_length_step(x: u64)
    requires
        x >= 256,
    ensures
        bit_length(x) == bit_length(x / 256) + 8,
        bit_length(x / 256) >= 1,
{
    reveal_with_fuel(u64_leading_zeros, 10);
}

/// A single byte that is not zero has one to eight significant bits.
proof fn lemma_bit_length_small(x: u64)
    requires
        0 < x < 256,
    ensures
        1 <= bit_length(x) <= 8,
{
    reveal_with_fuel(u64_leading_zeros, 10);
}

/// The byte width is the bit length, rounded up to whole bytes.
proof fn lemma_byte_width_is_bit_length(x: u64)
    requires
        x > 0,
    ensures
        1 <= bit_length(x) <= 64,
        byte_width(x as nat) == (bit_length(x) + 7) / 8,
    decreases x,
{
    if x < 256 {
        lemma_bit_length_small(x);
    } else {
        lemma_bit_length_step(x);
        lemma_byte_width_is_bit_length(x / 256);
    }
}

/// Number of bytes needed for the length of a payload of `payload_length`
/// bytes, taken from the count of leading zero bits of the length.
pub fn length_of_length(payload_length: usize) -> (r: usize)
    ensures
        r == spec_length_of_length(payload_length as nat),
        1 <= r <= 8,
{
    if payload_length < 56 {
        1
    } else {
        let zeros: u32 = (payload_length as u64).leading_zeros();
        proof {
            lemma_byte_width_is_bit_length(payload_length as u64);
        }
        8 - (zeros as usize) / 8
    }
}

} // verus!
