//! Group key generation: a fresh random symmetric key for a group conversation.

use vstd::prelude::*;

use super::primitives::os_random_bytes;
use super::{CryptoError, SymmetricKey};

verus! {

/// Mint a fresh random group key from the OS CSPRNG (nothing is stated of its bytes).
/// It fails, with `CryptoError::Rng`, only when the system random source cannot supply
/// the bytes.
pub fn generate_group_key() -> (r: Result<SymmetricKey, CryptoError>)
    ensures
        r matches Err(e) ==> e == CryptoError::Rng,
{
    match os_random_bytes::<32>() {
        Some(k) => Ok(k),
        None => Err(CryptoError::Rng),
    }
}

} // verus!
