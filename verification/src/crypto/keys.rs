//! Long-term identity keys: an X25519 keypair for agreement and an Ed25519 keypair for
//! signing. The in-memory form holds the raw 32-byte secrets.

use vstd::prelude::*;

use super::agreement::pairwise_key_spec;
use super::primitives::{
    ed25519_check_key, ed25519_key_valid, ed25519_public, ed25519_public_key, os_random_bytes,
    x25519_public, x25519_public_key,
};
use super::CryptoError;

verus! {

/// A Seqr identity: the raw secret bytes of its two keypairs. Never serialize this
/// directly; persist it only inside the encrypted vault.
pub struct Identity {
    /// X25519 secret (key agreement).
    pub agreement_secret: [u8; 32],
    /// Ed25519 secret key (signing).
    pub signing_key: [u8; 32],
}

/// The public half of an identity, safe to put in a profile and transmit.
#[derive(Debug, Clone, Copy, PartialEq, Eq)]
pub struct PublicIdentity {
    pub agreement_public: [u8; 32],
    pub signing_public: [u8; 32],
}

/// An Ed25519 public key whose bytes decompress to a curve point.
pub struct VerifyingKey {
    bytes: [u8; 32],
}

impl View for VerifyingKey {
    type V = Seq<u8>;

    closed spec fn view(&self) -> Seq<u8> {
        self.bytes@
    }
}

impl VerifyingKey {
    #[verifier::type_invariant]
    spec fn decompresses(&self) -> bool {
        ed25519_key_valid(self.bytes@)
    }

    /// The 32 key bytes.
    pub fn to_bytes(&self) -> (b: [u8; 32])
        ensures
            b@ == self@,
            ed25519_key_valid(b@),
    {
        proof {
            use_type_invariant(self);
        }
        self.bytes
    }
}

impl Identity {
    /// Generate a brand-new identity from the OS CSPRNG: each secret is 32 random bytes,
    /// as `StaticSecret::random_from_rng` and `SigningKey::generate` draw them. It fails,
    /// with `CryptoError::Rng`, only when the system random source cannot supply them.
    pub fn generate() -> (r: Result<Identity, CryptoError>)
        ensures
            r matches Err(e) ==> e == CryptoError::Rng,
    {
        let agreement_secret = match os_random_bytes::<32>() {
            Some(b) => b,
            None => return Err(CryptoError::Rng),
        };
        let signing_key = match os_random_bytes::<32>() {
            Some(b) => b,
            None => return Err(CryptoError::Rng),
        };
        Ok(Identity { agreement_secret, signing_key })
    }

    /// Reconstruct an identity from its raw secret bytes (as stored in the vault).
    pub fn from_secret_bytes(agreement: &[u8; 32], signing: &[u8; 32]) -> (r: Result<Identity, CryptoError>)
        ensures
            r matches Ok(id) && id.agreement_secret == *agreement && id.signing_key == *signing,
    {
        Ok(Identity { agreement_secret: *agreement, signing_key: *signing })
    }

    /// Raw secret bytes for persistence.
    pub fn secret_bytes(&self) -> (r: ([u8; 32], [u8; 32]))
        ensures
            r.0 == self.agreement_secret,
            r.1 == self.signing_key,
    {
        (self.agreement_secret, self.signing_key)
    }

    /// The public identity of a secret pair.
    pub open spec fn public_spec(agreement_secret: Seq<u8>, signing_key: Seq<u8>) -> (Seq<u8>, Seq<u8>) {
        (x25519_public_key(agreement_secret), ed25519_public_key(signing_key))
    }

    /// `p` is the public identity of `id`: its keys are those of `id`'s secrets, and its
    /// agreement key gives both sides of a pair the same pairwise key.
    pub open spec fn is_public_of(p: PublicIdentity, id: Identity) -> bool {
        &&& p.agreement_public@ == x25519_public_key(id.agreement_secret@)
        &&& p.signing_public@ == ed25519_public_key(id.signing_key@)
        &&& ed25519_key_valid(p.signing_public@)
        &&& forall|other: Seq<u8>|
            other.len() == 32 ==> #[trigger] pairwise_key_spec(other, p.agreement_public@)
                == pairwise_key_spec(id.agreement_secret@, x25519_public_key(other))
    }

    /// The shareable public identity. Its agreement key gives both sides of a pair the
    /// same pairwise key: for any other secret, deriving with this public key equals
    /// deriving from this identity's secret with the other secret's public key.
    pub fn public(&self) -> (p: PublicIdentity)
        ensures
            p.agreement_public@ == x25519_public_key(self.agreement_secret@),
            p.signing_public@ == ed25519_public_key(self.signing_key@),
            ed25519_key_valid(p.signing_public@),
            forall|other: Seq<u8>|
                other.len() == 32 ==> #[trigger] pairwise_key_spec(other, p.agreement_public@)
                    == pairwise_key_spec(self.agreement_secret@, x25519_public_key(other)),
            Identity::is_public_of(p, *self),
    {
        let agreement_public = x25519_public(&self.agreement_secret);
        let signing_public = ed25519_public(&self.signing_key);
        let p = PublicIdentity { agreement_public, signing_public };
        assert forall|other: Seq<u8>|
            other.len() == 32 implies #[trigger] pairwise_key_spec(other, p.agreement_public@)
                == pairwise_key_spec(self.agreement_secret@, x25519_public_key(other)) by {
            assert(super::primitives::x25519_shared_secret(other, agreement_public@)
                == super::primitives::x25519_shared_secret(self.agreement_secret@, x25519_public_key(other)));
        }
        p
    }
}

impl PublicIdentity {
    /// The Ed25519 verifying key, or `BadKey` if the signing key bytes do not decompress.
    pub fn verifying_key(&self) -> (r: Result<VerifyingKey, CryptoError>)
        ensures
            r is Ok <==> ed25519_key_valid(self.signing_public@),
            r matches Ok(vk) ==> vk@ == self.signing_public@,
            r matches Err(e) ==> e == CryptoError::BadKey,
    {
        if ed25519_check_key(&self.signing_public) {
            Ok(VerifyingKey { bytes: self.signing_public })
        } else {
            Err(CryptoError::BadKey)
        }
    }

    /// The X25519 public key bytes.
    pub fn agreement_public(&self) -> (k: [u8; 32])
        ensures
            k == self.agreement_public,
    {
        self.agreement_public
    }
}

} // verus!
