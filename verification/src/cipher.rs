use aes_gcm::aead::{Aead, KeyInit};
use aes_gcm::{Aes256Gcm, Key, Nonce};
use vstd::prelude::*;

verus! {

/// The error AES-GCM reports.
#[verifier::external_type_specification]
#[verifier::external_body]
pub struct ExAeadError(aes_gcm::Error);

/// The longest plaintext AES-GCM encrypts, in bytes (2^36).
pub open spec fn max_plaintext_len() -> int {
    0x10_0000_0000
}

/// What AES-256-GCM, with no associated data, makes of `plaintext` under
/// `key` and `nonce`: the ciphertext followed by the 16-byte tag.
pub uninterp spec fn aes256gcm_sealed(key: Seq<u8>, nonce: Seq<u8>, plaintext: Seq<u8>) -> Seq<u8>;

/// Calls `Aes256Gcm::new` on `key`, then `Aead::encrypt` with `nonce` and no
/// associated data. The aes-gcm source refuses exactly the plaintexts longer
/// than 2^36 bytes; otherwise the result is the sealed message, a function of
/// the key, the nonce and the plaintext alone.
#[verifier::external_body]
pub(crate) fn aes256gcm_encrypt(key: &[u8], nonce: &[u8], plaintext: &[u8]) -> (r: Result<
    Vec<u8>,
    aes_gcm::Error,
>)
    requires
        key@.len() == 32,
        nonce@.len() == 12,
    ensures
        r is Ok <==> plaintext@.len() <= max_plaintext_len(),
        r matches Ok(c) ==> c@ == aes256gcm_sealed(key@, nonce@, plaintext@),
{
    Aes256Gcm::new(Key::<Aes256Gcm>::from_slice(key)).encrypt(Nonce::from_slice(nonce), plaintext)
}

/// Calls `Aes256Gcm::new` on `key`, then `Aead::decrypt` with `nonce` and no
/// associated data. Stated: a message sealed from a plaintext opens to that
/// plaintext, and what opens is what was sealed. Nothing is stated of why a
/// message that no plaintext seals to is refused.
#[verifier::external_body]
pub(crate) fn aes256gcm_decrypt(key: &[u8], nonce: &[u8], ciphertext: &[u8]) -> (r: Result<
    Vec<u8>,
    aes_gcm::Error,
>)
    requires
        key@.len() == 32,
        nonce@.len() == 12,
    ensures
        forall|p: Seq<u8>| #[trigger] aes256gcm_sealed(key@, nonce@, p) == ciphertext@ && p.len() <= max_plaintext_len() ==> (r is Ok && r->Ok_0@ == p),
        r matches Ok(q) ==> (q@.len() <= max_plaintext_len() ==> ciphertext@ == aes256gcm_sealed(key@, nonce@, q@)),
{
    Aes256Gcm::new(Key::<Aes256Gcm>::from_slice(key)).decrypt(Nonce::from_slice(nonce), ciphertext)
}

} // verus!
