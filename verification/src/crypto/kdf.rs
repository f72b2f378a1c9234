//! Vault key derivation from the login password (Argon2id, 19 MiB, 2 passes, 1 lane).

use vstd::prelude::*;

use super::primitives::{argon2_inputs_ok, argon2id_hash, argon2id_output, os_random_bytes};
use super::{CryptoError, SymmetricKey};

verus! {

/// Memory cost in KiB.
pub const ARGON2_M_COST: u32 = 19456;
/// Passes.
pub const ARGON2_T_COST: u32 = 2;
/// Lanes.
pub const ARGON2_P_COST: u32 = 1;

/// The vault key of a password and salt.
pub open spec fn vault_key_spec(password: Seq<u8>, salt: Seq<u8>) -> Seq<u8> {
    argon2id_output(19456, 2, 1, password, salt)
}

/// A fresh random 16-byte salt for a new account (nothing is stated of its bytes). It
/// fails, with `CryptoError::Rng`, only when the system random source cannot supply the
/// bytes.
pub fn generate_salt() -> (r: Result<[u8; 16], CryptoError>)
    ensures
        r matches Err(e) ==> e == CryptoError::Rng,
{
    match os_random_bytes::<16>() {
        Some(s) => Ok(s),
        None => Err(CryptoError::Rng),
    }
}

/// Derive the 32-byte vault key from `password` and `salt`. It fails, with
/// `CryptoError::Kdf`, exactly when Argon2 refuses the input lengths (a salt shorter
/// than 8 bytes, or a password or salt longer than `0xFFFFFFFF` bytes).
pub fn derive_vault_key(password: &[u8], salt: &[u8]) -> (r: Result<SymmetricKey, CryptoError>)
    ensures
        r is Ok <==> argon2_inputs_ok(password@.len(), salt@.len()),
        r matches Ok(k) ==> k@ == vault_key_spec(password@, salt@),
        r matches Err(e) ==> e == CryptoError::Kdf,
{
    match argon2id_hash(ARGON2_M_COST, ARGON2_T_COST, ARGON2_P_COST, password, salt) {
        Some(k) => Ok(k),
        None => Err(CryptoError::Kdf),
    }
}

} // verus!
