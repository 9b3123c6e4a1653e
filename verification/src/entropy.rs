use rand_core::RngCore;
use secret_toolkit_crypto::ContractPrng;
use vstd::prelude::*;

verus! {

/// The first 32-bit word that `ContractPrng::new(seed, entropy)` draws.
///
/// The generator is ChaCha seeded with the SHA-256 hash of `seed` followed by
/// `entropy`, so what it draws depends on these two byte strings alone.
pub uninterp spec fn prng_word(seed: Seq<u8>, entropy: Seq<u8>) -> u32;

/// The `index`-th 32-byte block that `ContractPrng::new(seed, entropy)` hands out
/// through `rand_bytes`, counting from zero.
pub uninterp spec fn prng_block(seed: Seq<u8>, entropy: Seq<u8>, index: nat) -> Seq<u8>;

/// Seeds a `secret_toolkit_crypto::ContractPrng` with `seed` and `entropy`
/// (`ContractPrng::new`) and returns its first word (`RngCore::next_u32`).
/// Stated: the word is `prng_word` of the two byte strings.
#[verifier::external_body]
pub(crate) fn prng_first_word(seed: &[u8], entropy: &[u8]) -> (word: u32)
    ensures
        word == prng_word(seed@, entropy@),
{
    ContractPrng::new(seed, entropy).next_u32()
}

/// Seeds a `secret_toolkit_crypto::ContractPrng` with `seed` and `entropy`
/// (`ContractPrng::new`) and returns its first two blocks
/// (`ContractPrng::rand_bytes`, called twice), each as a vector.
/// Stated: they are blocks 0 and 1 of `prng_block`, of 32 bytes each.
#[verifier::external_body]
pub(crate) fn prng_first_blocks(seed: &[u8], entropy: &[u8]) -> (blocks: (Vec<u8>, Vec<u8>))
    ensures
        blocks.0@ == prng_block(seed@, entropy@, 0),
        blocks.1@ == prng_block(seed@, entropy@, 1),
        blocks.0@.len() == 32,
        blocks.1@.len() == 32,
{
    let mut prng = ContractPrng::new(seed, entropy);
    let first = prng.rand_bytes().to_vec();
    let second = prng.rand_bytes().to_vec();
    (first, second)
}

} // verus!
