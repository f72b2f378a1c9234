//! The cryptographic primitives this library composes, provided by the RustCrypto
//! and dalek crates. Each function here makes one call into its crate; the names
//! below stand for what those calls compute, and the contracts state only what the
//! crates' sources and documentation show.

use vstd::prelude::*;

use chacha20poly1305::aead::{Aead, KeyInit, Payload};
use chacha20poly1305::{ChaCha20Poly1305, Nonce};
use ed25519_dalek::{Signature, Signer, SigningKey, Verifier, VerifyingKey};
use rand_core::{OsRng, RngCore};
use sha2::{Digest, Sha256};
use base64::Engine;

verus! {

/// ChaCha20-Poly1305 ciphertext (with its 16-byte tag appended) of `plaintext` under
/// `key` and `nonce`, authenticating `aad`.
pub uninterp spec fn chacha20poly1305_ciphertext(
    key: Seq<u8>,
    nonce: Seq<u8>,
    plaintext: Seq<u8>,
    aad: Seq<u8>,
) -> Seq<u8>;

/// ChaCha20-Poly1305 decryption of `ciphertext`: the plaintext when the tag
/// authenticates it under `key`, `nonce` and `aad`.
pub uninterp spec fn chacha20poly1305_plaintext(
    key: Seq<u8>,
    nonce: Seq<u8>,
    ciphertext: Seq<u8>,
    aad: Seq<u8>,
) -> Option<Seq<u8>>;

/// X25519 public key of a 32-byte secret (the scalar is clamped by the crate).
pub uninterp spec fn x25519_public_key(secret: Seq<u8>) -> Seq<u8>;

/// X25519 shared secret of one side's secret and the other side's public key.
pub uninterp spec fn x25519_shared_secret(secret: Seq<u8>, public: Seq<u8>) -> Seq<u8>;

/// HKDF-SHA256 (no salt) output keying material of length `len`.
pub uninterp spec fn hkdf_sha256_okm(ikm: Seq<u8>, info: Seq<u8>, len: nat) -> Seq<u8>;

/// SHA-256 digest.
pub uninterp spec fn sha256_digest(data: Seq<u8>) -> Seq<u8>;

/// Argon2id (version 0x13) output of 32 bytes for the given costs, password and salt.
pub uninterp spec fn argon2id_output(
    m_cost: u32,
    t_cost: u32,
    p_cost: u32,
    password: Seq<u8>,
    salt: Seq<u8>,
) -> Seq<u8>;

/// Ed25519 public (verifying) key of a 32-byte secret key.
pub uninterp spec fn ed25519_public_key(secret: Seq<u8>) -> Seq<u8>;

/// Ed25519 signature (deterministic) of `msg` by a 32-byte secret key.
pub uninterp spec fn ed25519_signature(secret: Seq<u8>, msg: Seq<u8>) -> Seq<u8>;

/// Whether 32 bytes decompress to an Ed25519 verifying key.
pub uninterp spec fn ed25519_key_valid(public: Seq<u8>) -> bool;

/// Whether `sig` is a valid Ed25519 signature of `msg` under `public`.
pub uninterp spec fn ed25519_signature_valid(public: Seq<u8>, msg: Seq<u8>, sig: Seq<u8>) -> bool;

/// Standard (padded) base64 text of `bytes`.
pub uninterp spec fn base64_standard(bytes: Seq<u8>) -> Seq<char>;

/// The largest plaintext ChaCha20-Poly1305 encrypts: fewer than `u32::MAX` 64-byte blocks.
pub open spec fn chacha_plaintext_ok(len: nat) -> bool {
    len / 64 < 4294967295
}

/// `ChaCha20Poly1305::encrypt`. The crate refuses only plaintexts of `u32::MAX` or more
/// 64-byte blocks, which `requires` leaves out. The output is the ciphertext with the
/// 16-byte tag appended, and decrypting it with the same key, nonce and associated data
/// gives the plaintext back (the AEAD's correctness, as the `aead` crate documents it).
#[verifier::external_body]
pub(crate) fn chacha20poly1305_encrypt(
    key: &[u8; 32],
    nonce: &[u8; 12],
    plaintext: &[u8],
    aad: &[u8],
) -> (ciphertext: Vec<u8>)
    requires
        chacha_plaintext_ok(plaintext@.len()),
    ensures
        ciphertext@ == chacha20poly1305_ciphertext(key@, nonce@, plaintext@, aad@),
        ciphertext@.len() == plaintext@.len() + 16,
        chacha20poly1305_plaintext(key@, nonce@, ciphertext@, aad@) == Some(plaintext@),
{
    let cipher = ChaCha20Poly1305::new(key.into());
    match cipher.encrypt(Nonce::from_slice(nonce), Payload { msg: plaintext, aad }) {
        Ok(ct) => ct,
        Err(_) => Vec::new(),
    }
}

/// `ChaCha20Poly1305::decrypt`: the plaintext, or `None` when authentication fails.
#[verifier::external_body]
pub(crate) fn chacha20poly1305_decrypt(
    key: &[u8; 32],
    nonce: &[u8],
    ciphertext: &[u8],
    aad: &[u8],
) -> (plaintext: Option<Vec<u8>>)
    requires
        nonce@.len() == 12,
    ensures
        match plaintext {
            Some(p) => chacha20poly1305_plaintext(key@, nonce@, ciphertext@, aad@) == Some(p@),
            None => chacha20poly1305_plaintext(key@, nonce@, ciphertext@, aad@) is None,
        },
{
    let cipher = ChaCha20Poly1305::new(key.into());
    match cipher.decrypt(Nonce::from_slice(nonce), Payload { msg: ciphertext, aad }) {
        Ok(p) => Some(p),
        Err(_) => None,
    }
}

/// `OsRng.try_fill_bytes`: `N` bytes from the operating system's CSPRNG, or `None`
/// when the operating system cannot supply them (`OsRng` reports that as an error
/// rather than panicking here). Nothing is stated of the bytes.
#[verifier::external_body]
pub(crate) fn os_random_bytes<const N: usize>() -> Option<[u8; N]> {
    let mut bytes = [0u8; N];
    match OsRng.try_fill_bytes(&mut bytes) {
        Ok(()) => Some(bytes),
        Err(_) => None,
    }
}

/// `getrandom::getrandom` into 32 bytes: `None` when the system source fails. Nothing
/// is stated of the bytes.
#[verifier::external_body]
pub(crate) fn getrandom_32() -> Option<[u8; 32]> {
    let mut bytes = [0u8; 32];
    match getrandom::getrandom(&mut bytes) {
        Ok(()) => Some(bytes),
        Err(_) => None,
    }
}

/// `PublicKey::from(&StaticSecret::from(secret))`. Diffie-Hellman agreement holds for
/// it, as the crate documents: any other secret combined with this public key gives the
/// same shared secret as this secret combined with the other secret's public key.
#[verifier::external_body]
pub(crate) fn x25519_public(secret: &[u8; 32]) -> (public: [u8; 32])
    ensures
        public@ == x25519_public_key(secret@),
        forall|other: Seq<u8>|
            other.len() == 32 ==> #[trigger] x25519_shared_secret(other, public@)
                == x25519_shared_secret(secret@, x25519_public_key(other)),
{
    let s = x25519_dalek::StaticSecret::from(*secret);
    x25519_dalek::PublicKey::from(&s).to_bytes()
}

/// `StaticSecret::from(secret).diffie_hellman(&PublicKey::from(public))`, as bytes.
#[verifier::external_body]
pub(crate) fn x25519_diffie_hellman(secret: &[u8; 32], public: &[u8; 32]) -> (shared: [u8; 32])
    ensures
        shared@ == x25519_shared_secret(secret@, public@),
{
    let s = x25519_dalek::StaticSecret::from(*secret);
    s.diffie_hellman(&x25519_dalek::PublicKey::from(*public)).to_bytes()
}

/// `Hkdf::<Sha256>::new(None, ikm).expand(info, &mut [0u8; 32])`. Expansion fails only
/// for outputs longer than 255 hash lengths, never for 32 bytes.
#[verifier::external_body]
pub(crate) fn hkdf_sha256_32(ikm: &[u8], info: &[u8]) -> (okm: [u8; 32])
    ensures
        okm@ == hkdf_sha256_okm(ikm@, info@, 32),
{
    let hk = hkdf::Hkdf::<Sha256>::new(None, ikm);
    let mut okm = [0u8; 32];
    match hk.expand(info, &mut okm) {
        Ok(()) => okm,
        Err(_) => okm,
    }
}

/// `Sha256::digest(data)`.
#[verifier::external_body]
pub(crate) fn sha256(data: &[u8]) -> (digest: [u8; 32])
    ensures
        digest@ == sha256_digest(data@),
{
    Sha256::digest(data).into()
}

/// The parameters that `argon2::Params::new` accepts (with a 32-byte output).
pub open spec fn argon2_params_ok(m_cost: u32, t_cost: u32, p_cost: u32) -> bool {
    &&& 8 <= m_cost
    &&& 8 * p_cost <= m_cost
    &&& 1 <= t_cost
    &&& 1 <= p_cost <= 0xFFFFFF
}

/// The inputs that `Argon2::hash_password_into` accepts: a password of at most
/// `0xFFFFFFFF` bytes and a salt of 8 to `0xFFFFFFFF` bytes.
pub open spec fn argon2_inputs_ok(password_len: nat, salt_len: nat) -> bool {
    &&& password_len <= 0xFFFFFFFF
    &&& 8 <= salt_len <= 0xFFFFFFFF
}

/// `Argon2::new(Argon2id, V0x13, Params::new(m, t, p, Some(32))).hash_password_into`.
/// With parameters that `Params::new` accepts, it fails exactly when the password or
/// salt length is out of the crate's bounds.
#[verifier::external_body]
pub(crate) fn argon2id_hash(
    m_cost: u32,
    t_cost: u32,
    p_cost: u32,
    password: &[u8],
    salt: &[u8],
) -> (key: Option<[u8; 32]>)
    requires
        argon2_params_ok(m_cost, t_cost, p_cost),
    ensures
        key is Some <==> argon2_inputs_ok(password@.len(), salt@.len()),
        key matches Some(k) ==> k@ == argon2id_output(m_cost, t_cost, p_cost, password@, salt@),
{
    let params = match argon2::Params::new(m_cost, t_cost, p_cost, Some(32)) {
        Ok(p) => p,
        Err(_) => return None,
    };
    let argon = argon2::Argon2::new(argon2::Algorithm::Argon2id, argon2::Version::V0x13, params);
    let mut key = [0u8; 32];
    match argon.hash_password_into(password, salt, &mut key) {
        Ok(()) => Some(key),
        Err(_) => None,
    }
}

/// `SigningKey::from_bytes(secret).verifying_key().to_bytes()`: the public key, which
/// always decompresses.
#[verifier::external_body]
pub(crate) fn ed25519_public(secret: &[u8; 32]) -> (public: [u8; 32])
    ensures
        public@ == ed25519_public_key(secret@),
        ed25519_key_valid(public@),
{
    SigningKey::from_bytes(secret).verifying_key().to_bytes()
}

/// `SigningKey::from_bytes(secret).sign(msg).to_bytes()`. As the crate documents, the
/// signature verifies under the signer's own public key.
#[verifier::external_body]
pub(crate) fn ed25519_sign(secret: &[u8; 32], msg: &[u8]) -> (sig: [u8; 64])
    ensures
        sig@ == ed25519_signature(secret@, msg@),
        ed25519_signature_valid(ed25519_public_key(secret@), msg@, sig@),
{
    SigningKey::from_bytes(secret).sign(msg).to_bytes()
}

/// `VerifyingKey::from_bytes(public).is_ok()`.
#[verifier::external_body]
pub(crate) fn ed25519_check_key(public: &[u8; 32]) -> (valid: bool)
    ensures
        valid == ed25519_key_valid(public@),
{
    VerifyingKey::from_bytes(public).is_ok()
}

/// `VerifyingKey::verify(msg, &Signature::from_bytes(sig)).is_ok()` for a key that
/// decompresses.
#[verifier::external_body]
pub(crate) fn ed25519_verify(public: &[u8; 32], msg: &[u8], sig: &[u8; 64]) -> (valid: bool)
    requires
        ed25519_key_valid(public@),
    ensures
        valid == ed25519_signature_valid(public@, msg@, sig@),
{
    match VerifyingKey::from_bytes(public) {
        Ok(vk) => vk.verify(msg, &Signature::from_bytes(sig)).is_ok(),
        Err(_) => false,
    }
}

/// `base64::engine::general_purpose::STANDARD.encode(bytes)`.
#[verifier::external_body]
pub(crate) fn base64_encode(bytes: &[u8]) -> (text: String)
    ensures
        text@ == base64_standard(bytes@),
{
    base64::engine::general_purpose::STANDARD.encode(bytes)
}

} // verus!
