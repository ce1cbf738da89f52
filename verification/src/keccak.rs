//! The hash function of the trie and of the product tree.

use vstd::prelude::*;
use tiny_keccak::Hasher;
use tiny_keccak::Keccak;

verus! {

/// The Keccak-256 digest of `data`, as `tiny_keccak` computes it.
pub uninterp spec fn keccak256(data: Seq<u8>) -> Seq<u8>;

/// Feeds `bytes` to a fresh `tiny_keccak::Keccak::v256()` with one call of
/// `Hasher::update` and takes 32 bytes out of it with `Hasher::finalize`.
///
/// Not proved: that the output is a function of `bytes` alone, named
/// `keccak256`. The hasher starts from its initial state, absorbs nothing but
/// `bytes`, and is dropped afterwards.
#[verifier::external_body]
pub(crate) fn keccak256_tiny(bytes: &[u8]) -> (digest: [u8; 32])
    ensures
        digest@ == keccak256(bytes@),
{
    let mut hasher = Keccak::v256();
    let mut output = [0u8; 32];
    hasher.update(bytes);
    hasher.finalize(&mut output);
    output
}

} // verus!
