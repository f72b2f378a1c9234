use seqr::crypto::aead::{open, seal};
use seqr::crypto::agreement::derive_pairwise;
use seqr::crypto::fingerprint::safety_number;
use seqr::crypto::group::generate_group_key;
use seqr::crypto::kdf::derive_vault_key;
use seqr::crypto::keys::Identity;
use seqr::crypto::sign::{sign, verify, verify_raw};
use seqr::crypto::CryptoError;
use seqr::protocol::MessageFrame;

#[test]
fn roundtrip() {
    let key = [7u8; 32];
    let sealed = seal(&key, b"hello sir", b"conv-1|epoch-3").unwrap();
    let opened = open(&key, &sealed, b"conv-1|epoch-3").unwrap();
    assert_eq!(opened, b"hello sir");
}

#[test]
fn wrong_key_fails() {
    let sealed = seal(&[1u8; 32], b"secret", b"").unwrap();
    assert!(matches!(open(&[2u8; 32], &sealed, b""), Err(CryptoError::Decrypt)));
}

#[test]
fn tampered_aad_fails() {
    let key = [9u8; 32];
    let sealed = seal(&key, b"secret", b"conv-1|epoch-3").unwrap();
    assert!(matches!(open(&key, &sealed, b"conv-1|epoch-4"), Err(CryptoError::Decrypt)));
}

#[test]
fn tampered_ciphertext_fails() {
    let key = [3u8; 32];
    let mut sealed = seal(&key, b"secret", b"").unwrap();
    let last = sealed.len() - 1;
    sealed[last] ^= 0xff;
    assert!(open(&key, &sealed, b"").is_err());
}

#[test]
fn nonces_are_unique() {
    let key = [4u8; 32];
    let a = seal(&key, b"x", b"").unwrap();
    let b = seal(&key, b"x", b"").unwrap();
    assert_ne!(a, b, "fresh nonce must make ciphertexts differ");
}

#[test]
fn truncated_input() {
    assert!(matches!(open(&[0u8; 32], &[0u8; 4], b""), Err(CryptoError::Truncated)));
}

#[test]
fn sealed_is_nonce_plus_tag_longer() {
    let sealed = seal(&[5u8; 32], b"abcdef", b"ad").unwrap();
    assert_eq!(sealed.len(), 6 + 28);
    assert_ne!(&sealed[12..18], b"abcdef");
}

#[test]
fn both_sides_agree() {
    let alice = Identity::generate().unwrap();
    let bob = Identity::generate().unwrap();
    let a = derive_pairwise(&alice.agreement_secret, &bob.public().agreement_public());
    let b = derive_pairwise(&bob.agreement_secret, &alice.public().agreement_public());
    assert_eq!(a, b);
}

#[test]
fn different_pairs_differ() {
    let alice = Identity::generate().unwrap();
    let bob = Identity::generate().unwrap();
    let carol = Identity::generate().unwrap();
    let ab = derive_pairwise(&alice.agreement_secret, &bob.public().agreement_public());
    let ac = derive_pairwise(&alice.agreement_secret, &carol.public().agreement_public());
    assert_ne!(ab, ac);
}

#[test]
fn pairwise_key_is_not_the_raw_shared_secret() {
    let alice = Identity::generate().unwrap();
    let bob = Identity::generate().unwrap();
    let k = derive_pairwise(&alice.agreement_secret, &bob.public().agreement_public());
    assert_ne!(k, bob.public().agreement_public());
    assert_ne!(k, alice.agreement_secret);
}

#[test]
fn order_independent() {
    let a = [1u8; 32];
    let b = [2u8; 32];
    assert_eq!(safety_number(&a, &b), safety_number(&b, &a));
}

#[test]
fn distinct_pairs_differ() {
    let a = [1u8; 32];
    let b = [2u8; 32];
    let c = [3u8; 32];
    assert_ne!(safety_number(&a, &b), safety_number(&a, &c));
}

#[test]
fn format_is_six_five_digit_groups() {
    let s = safety_number(&[9u8; 32], &[7u8; 32]);
    let groups: Vec<&str> = s.split(' ').collect();
    assert_eq!(groups.len(), 6);
    assert!(groups.iter().all(|g| g.len() == 5 && g.chars().all(|c| c.is_ascii_digit())));
}

#[test]
fn keys_are_unique() {
    assert_ne!(generate_group_key().unwrap(), generate_group_key().unwrap());
}

#[test]
fn deterministic_for_same_inputs() {
    let salt = [1u8; 16];
    let a = derive_vault_key(b"correct horse", &salt).unwrap();
    let b = derive_vault_key(b"correct horse", &salt).unwrap();
    assert_eq!(a, b);
}

#[test]
fn salt_changes_output() {
    let a = derive_vault_key(b"pw", &[1u8; 16]).unwrap();
    let b = derive_vault_key(b"pw", &[2u8; 16]).unwrap();
    assert_ne!(a, b);
}

#[test]
fn password_changes_output() {
    let salt = [9u8; 16];
    assert_ne!(
        derive_vault_key(b"alpha", &salt).unwrap(),
        derive_vault_key(b"beta", &salt).unwrap()
    );
}

#[test]
fn short_salt_is_refused() {
    assert!(matches!(derive_vault_key(b"pw", &[1u8; 7]), Err(CryptoError::Kdf)));
    assert!(derive_vault_key(b"pw", &[1u8; 8]).is_ok());
}

#[test]
fn roundtrip_secret_bytes() {
    let id = Identity::generate().unwrap();
    let (a, s) = id.secret_bytes();
    let restored = Identity::from_secret_bytes(&a, &s).unwrap();
    assert_eq!(id.public(), restored.public());
}

#[test]
fn distinct_identities_differ() {
    assert_ne!(Identity::generate().unwrap().public(), Identity::generate().unwrap().public());
}

#[test]
fn sign_verify_roundtrip() {
    let id = Identity::generate().unwrap();
    let sig = sign(&id.signing_key, b"the medium is the message");
    assert!(verify_raw(&id.public().signing_public, b"the medium is the message", &sig).is_ok());
}

#[test]
fn wrong_message_rejected() {
    let id = Identity::generate().unwrap();
    let sig = sign(&id.signing_key, b"original");
    assert!(verify_raw(&id.public().signing_public, b"tampered", &sig).is_err());
}

#[test]
fn wrong_signer_rejected() {
    let alice = Identity::generate().unwrap();
    let mallory = Identity::generate().unwrap();
    let sig = sign(&alice.signing_key, b"msg");
    assert!(verify_raw(&mallory.public().signing_public, b"msg", &sig).is_err());
}

#[test]
fn verify_with_verifying_key() {
    let id = Identity::generate().unwrap();
    let vk = id.public().verifying_key().unwrap();
    let sig = sign(&id.signing_key, b"hello");
    assert!(verify(&vk, b"hello", &sig).is_ok());
    assert!(matches!(verify(&vk, b"hullo", &sig), Err(CryptoError::BadSignature)));
}

#[test]
fn error_messages() {
    assert_eq!(CryptoError::Truncated.message(), "ciphertext too short");
    assert_eq!(CryptoError::Kdf.message(), "password key derivation failed");
}

#[test]
fn frame_signing_bytes_bind_every_field() {
    let base = MessageFrame::signing_bytes("conv", 1, "alice", 2, "00ff");
    assert_eq!(base, b"seqr/frame/v1|conv|1|alice|2|00ff".to_vec());
    assert_ne!(base, MessageFrame::signing_bytes("alice", 1, "conv", 2, "00ff"));
    assert_ne!(base, MessageFrame::signing_bytes("conv", 2, "alice", 1, "00ff"));
    assert_ne!(base, MessageFrame::signing_bytes("conv", 12, "alice", 2, "00ff"));
}

#[test]
fn unavailable_randomness_is_an_error() {
    assert_eq!(CryptoError::Rng.message(), "system random source unavailable");
}
