//! Authenticated encryption of payloads with ChaCha20-Poly1305.
//!
//! Each `seal` draws a fresh random 96-bit nonce and prepends it to the ciphertext, so
//! `open` is self-contained. Associated data (such as a conversation id and epoch) is
//! authenticated but not encrypted, binding a ciphertext to its context.

use vstd::prelude::*;

use super::primitives::{
    chacha20poly1305_ciphertext, chacha20poly1305_decrypt, chacha20poly1305_encrypt,
    chacha20poly1305_plaintext, chacha_plaintext_ok, os_random_bytes,
};
use super::{CryptoError, SymmetricKey};

verus! {

/// Length of the nonce that prefixes every sealed blob.
pub const NONCE_LEN: usize = 12;

/// `sealed` is `nonce || ciphertext` of `plaintext` under `key` and `aad`, for the
/// nonce it starts with.
pub open spec fn is_sealing_of(key: Seq<u8>, plaintext: Seq<u8>, aad: Seq<u8>, sealed: Seq<u8>) -> bool {
    &&& sealed.len() >= 12
    &&& sealed.skip(12) == chacha20poly1305_ciphertext(key, sealed.take(12), plaintext, aad)
}

/// What `open` gives for a sealed blob.
pub open spec fn open_spec(key: Seq<u8>, sealed: Seq<u8>, aad: Seq<u8>) -> Result<Seq<u8>, CryptoError> {
    if sealed.len() < 12 {
        Err(CryptoError::Truncated)
    } else {
        match chacha20poly1305_plaintext(key, sealed.take(12), sealed.skip(12), aad) {
            Some(p) => Ok(p),
            None => Err(CryptoError::Decrypt),
        }
    }
}

/// Seal `plaintext` under `key`, authenticating `aad`. Output is `nonce || ciphertext`
/// with a fresh random nonce; opening it with the same key and associated data gives the
/// plaintext back. It fails, with `CryptoError::Rng`, only when the system random source
/// cannot supply the nonce.
pub fn seal(key: &SymmetricKey, plaintext: &[u8], aad: &[u8]) -> (r: Result<Vec<u8>, CryptoError>)
    requires
        chacha_plaintext_ok(plaintext@.len()),
    ensures
        match r {
            Ok(sealed) => {
                &&& is_sealing_of(key@, plaintext@, aad@, sealed@)
                &&& sealed@.len() == plaintext@.len() + 28
                &&& open_spec(key@, sealed@, aad@) == Ok::<Seq<u8>, CryptoError>(plaintext@)
            },
            Err(e) => e == CryptoError::Rng,
        },
{
    let nonce: [u8; 12] = match os_random_bytes::<12>() {
        Some(n) => n,
        None => return Err(CryptoError::Rng),
    };
    let ct = chacha20poly1305_encrypt(key, &nonce, plaintext, aad);
    let mut out: Vec<u8> = Vec::new();
    crate::text::push_bytes(&mut out, &nonce);
    crate::text::push_bytes(&mut out, ct.as_slice());
    assert(out@.take(12) =~= nonce@);
    assert(out@.skip(12) =~= ct@);
    Ok(out)
}

/// Open a `nonce || ciphertext` blob produced by [`seal`], checking `aad`.
pub fn open(key: &SymmetricKey, sealed: &[u8], aad: &[u8]) -> (r: Result<Vec<u8>, CryptoError>)
    ensures
        match r {
            Ok(p) => open_spec(key@, sealed@, aad@) == Ok::<Seq<u8>, CryptoError>(p@),
            Err(e) => open_spec(key@, sealed@, aad@) == Err::<Seq<u8>, CryptoError>(e),
        },
{
    if sealed.len() < NONCE_LEN {
        return Err(CryptoError::Truncated);
    }
    let (nonce, ct) = sealed.split_at(NONCE_LEN);
    assert(nonce@ =~= sealed@.take(12));
    assert(ct@ =~= sealed@.skip(12));
    match chacha20poly1305_decrypt(key, nonce, ct, aad) {
        Some(p) => Ok(p),
        None => Err(CryptoError::Decrypt),
    }
}

} // verus!
