//! Cryptographic core: a small set of primitives composed into the protocol.
//! It knows nothing of conversations, networking or storage, only keys and bytes.

pub mod aead;
pub mod agreement;
pub mod fingerprint;
pub mod group;
pub mod kdf;
pub mod keys;
pub mod primitives;
pub mod sign;

use vstd::prelude::*;

verus! {

/// A 32-byte symmetric key, used both for ECDH-derived secrets and for group keys.
pub type SymmetricKey = [u8; 32];

/// Failures of the cryptographic operations.
#[derive(Debug, Clone, Copy, PartialEq, Eq, Structural)]
pub enum CryptoError {
    Decrypt,
    Truncated,
    BadSignature,
    BadKey,
    Kdf,
    Rng,
}

impl CryptoError {
    /// The human-readable description of the error.
    pub fn message(&self) -> (s: String)
        ensures
            s@ == self.message_spec(),
    {
        match self {
            CryptoError::Decrypt => String::from_str(
                "decryption failed: ciphertext could not be authenticated",
            ),
            CryptoError::Truncated => String::from_str("ciphertext too short"),
            CryptoError::BadSignature => String::from_str("signature verification failed"),
            CryptoError::BadKey => String::from_str("invalid key bytes"),
            CryptoError::Kdf => String::from_str("password key derivation failed"),
            CryptoError::Rng => String::from_str("system random source unavailable"),
        }
    }

    /// The description each error carries.
    pub open spec fn message_spec(&self) -> Seq<char> {
        match self {
            CryptoError::Decrypt => "decryption failed: ciphertext could not be authenticated"@,
            CryptoError::Truncated => "ciphertext too short"@,
            CryptoError::BadSignature => "signature verification failed"@,
            CryptoError::BadKey => "invalid key bytes"@,
            CryptoError::Kdf => "password key derivation failed"@,
            CryptoError::Rng => "system random source unavailable"@,
        }
    }
}

} // verus!
