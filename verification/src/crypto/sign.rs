//! Detached Ed25519 signatures over arbitrary bytes.

use vstd::prelude::*;

use super::keys::VerifyingKey;
use super::primitives::{
    ed25519_check_key, ed25519_key_valid, ed25519_public_key, ed25519_sign, ed25519_signature,
    ed25519_signature_valid, ed25519_verify,
};
use super::CryptoError;

verus! {

/// Sign `msg` with a signing key (its 32 secret bytes), returning the 64-byte
/// signature, which verifies under the key's public half.
pub fn sign(key: &[u8; 32], msg: &[u8]) -> (sig: [u8; 64])
    ensures
        sig@ == ed25519_signature(key@, msg@),
        ed25519_signature_valid(ed25519_public_key(key@), msg@, sig@),
{
    ed25519_sign(key, msg)
}

/// Verify a detached signature. `Ok(())` only if valid.
pub fn verify(public: &VerifyingKey, msg: &[u8], sig: &[u8; 64]) -> (r: Result<(), CryptoError>)
    ensures
        r is Ok <==> ed25519_signature_valid(public@, msg@, sig@),
        r matches Err(e) ==> e == CryptoError::BadSignature,
{
    let bytes = public.to_bytes();
    if ed25519_verify(&bytes, msg, sig) {
        Ok(())
    } else {
        Err(CryptoError::BadSignature)
    }
}

/// What `verify_raw` answers.
pub open spec fn verify_raw_spec(public: Seq<u8>, msg: Seq<u8>, sig: Seq<u8>) -> Result<(), CryptoError> {
    if !ed25519_key_valid(public) {
        Err(CryptoError::BadKey)
    } else if ed25519_signature_valid(public, msg, sig) {
        Ok(())
    } else {
        Err(CryptoError::BadSignature)
    }
}

/// Verify against raw 32-byte public key bytes: `BadKey` if they are not a key,
/// `BadSignature` if the signature does not verify.
pub fn verify_raw(public_bytes: &[u8; 32], msg: &[u8], sig: &[u8; 64]) -> (r: Result<(), CryptoError>)
    ensures
        r == verify_raw_spec(public_bytes@, msg@, sig@),
{
    if !ed25519_check_key(public_bytes) {
        return Err(CryptoError::BadKey);
    }
    if ed25519_verify(public_bytes, msg, sig) {
        Ok(())
    } else {
        Err(CryptoError::BadSignature)
    }
}

} // verus!
