//! Key agreement: a shared symmetric key from one's own X25519 secret and a peer's
//! X25519 public key, run through HKDF-SHA256 with a domain-separation label.

use vstd::prelude::*;

use super::primitives::{hkdf_sha256_32, hkdf_sha256_okm, x25519_diffie_hellman, x25519_shared_secret};
use super::SymmetricKey;

verus! {

/// The HKDF info label of pairwise keys.
pub open spec fn pairwise_info() -> Seq<u8> {
    seq![
        115u8, 101, 113, 114, 47, 118, 49, 47, 112, 97, 105, 114, 119, 105, 115, 101, 45, 107,
        101, 121,
    ]
}

/// The pairwise key of `my_secret` and `their_public`.
pub open spec fn pairwise_key_spec(my_secret: Seq<u8>, their_public: Seq<u8>) -> Seq<u8> {
    hkdf_sha256_okm(x25519_shared_secret(my_secret, their_public), pairwise_info(), 32)
}

/// Derive the pairwise symmetric key for a 1:1 conversation from this device's X25519
/// secret and the peer's X25519 public key. Both sides compute the same key (see
/// `Identity::public`).
pub fn derive_pairwise(my_secret: &[u8; 32], their_public: &[u8; 32]) -> (key: SymmetricKey)
    ensures
        key@ == pairwise_key_spec(my_secret@, their_public@),
{
    let shared = x25519_diffie_hellman(my_secret, their_public);
    // "seqr/v1/pairwise-key"
    let info: [u8; 20] = [
        115u8, 101, 113, 114, 47, 118, 49, 47, 112, 97, 105, 114, 119, 105, 115, 101, 45, 107,
        101, 121,
    ];
    assert(info@ =~= pairwise_info());
    hkdf_sha256_32(&shared, &info)
}

/// The same derivation from raw key bytes, as the vault stores them.
pub fn derive_pairwise_bytes(my_secret: &[u8; 32], their_public: &[u8; 32]) -> (key: SymmetricKey)
    ensures
        key@ == pairwise_key_spec(my_secret@, their_public@),
{
    derive_pairwise(my_secret, their_public)
}

} // verus!
