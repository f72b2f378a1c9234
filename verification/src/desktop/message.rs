//! Message framing: plaintext becomes a signed, sealed `MessageFrame` and back. A frame
//! is sealed with the conversation's key, its associated data binding it to the
//! conversation and epoch, and signed with the sender's Ed25519 key over the frame's
//! canonical bytes, so every member can tell who wrote it.

use vstd::prelude::*;

use super::{crypto_failure, from_crypto, profile_error, reports, CoreError};
use crate::crypto::aead::{open, open_spec, seal};
use crate::crypto::keys::Identity;
use crate::crypto::primitives::{chacha_plaintext_ok, ed25519_key_valid, ed25519_public_key, ed25519_signature, ed25519_signature_valid};
use crate::crypto::sign::{sign, verify_raw, verify_raw_spec};
use crate::crypto::{CryptoError, SymmetricKey};
use crate::hexcode::{dec, hex_decode, hex_decode_32, hex_decode_64, hex_decode_spec, hex_encode, hex_encode_spec, hex_key_spec, hex_sig_spec, push_decimal};
use crate::protocol::{frame_signing_spec, MessageFrame};
use crate::text::{push_str_bytes, string_from_utf8, utf8_bytes};
use vstd::utf8::{decode_utf8, encode_utf8_decode_utf8, valid_utf8};

verus! {

/// The associated data of a frame: `{conversation}|{epoch}`.
pub open spec fn aad_spec(conversation_id: Seq<u8>, epoch: u64) -> Seq<u8> {
    conversation_id + utf8_bytes("|"@) + dec(epoch as nat)
}

/// Associated data binding a ciphertext to its conversation and epoch.
pub fn aad(conversation_id: &str, epoch: u64) -> (b: Vec<u8>)
    ensures
        b@ == aad_spec(utf8_bytes(conversation_id@), epoch),
{
    let mut out: Vec<u8> = Vec::new();
    push_str_bytes(&mut out, conversation_id);
    push_str_bytes(&mut out, "|");
    push_decimal(&mut out, epoch);
    out
}

/// `frame` carries `plaintext` from `signing_key`'s owner in a conversation at an
/// epoch and sequence number: the sender is the hex of the public key, the ciphertext
/// the hex of a sealing of the text under `key`, and the signature the hex of the
/// owner's signature over the frame's signing bytes, which verifies.
pub open spec fn is_frame_of(
    signing_key: Seq<u8>,
    conversation_id: Seq<u8>,
    epoch: u64,
    key: Seq<u8>,
    seq: u64,
    plaintext: Seq<char>,
    frame: MessageFrame,
) -> bool {
    let sender = hex_encode_spec(ed25519_public_key(signing_key));
    let signed = frame_signing_spec(conversation_id, epoch, sender, seq, utf8_bytes(frame.ciphertext@));
    &&& utf8_bytes(frame.conversation_id@) == conversation_id
    &&& frame.epoch == epoch
    &&& frame.seq == seq
    &&& utf8_bytes(frame.sender@) == sender
    &&& ed25519_key_valid(ed25519_public_key(signing_key))
    &&& ed25519_public_key(signing_key).len() == 32
    &&& ed25519_signature(signing_key, signed).len() == 64
    &&& exists|ct: Seq<u8>|
        utf8_bytes(frame.ciphertext@) == hex_encode_spec(ct) && #[trigger] open_spec(key, ct, aad_spec(conversation_id, epoch))
            == Ok::<Seq<u8>, CryptoError>(utf8_bytes(plaintext))
    &&& utf8_bytes(frame.signature@) == hex_encode_spec(ed25519_signature(signing_key, signed))
    &&& ed25519_signature_valid(ed25519_public_key(signing_key), signed, ed25519_signature(signing_key, signed))
}

/// Build a signed, sealed frame from plaintext.
pub fn build_frame(
    identity: &Identity,
    conversation_id: &str,
    epoch: u64,
    key: &SymmetricKey,
    seq: u64,
    plaintext: &str,
) -> (r: Result<MessageFrame, CryptoError>)
    requires
        chacha_plaintext_ok(utf8_bytes(plaintext@).len()),
        utf8_bytes(plaintext@).len() + 28 <= usize::MAX / 2,
    ensures
        match r {
            Ok(f) => is_frame_of(identity.signing_key@, utf8_bytes(conversation_id@), epoch, key@, seq, plaintext@, f),
            Err(e) => e == CryptoError::Rng,
        },
{
    let p = identity.public();
    let sender = hex_encode(&p.signing_public);
    let ad = aad(conversation_id, epoch);
    let ciphertext = match seal(key, plaintext.as_bytes(), ad.as_slice()) {
        Ok(x) => x,
        Err(e) => return Err(e),
    };
    let ciphertext_hex = hex_encode(ciphertext.as_slice());
    let signing_bytes = MessageFrame::signing_bytes(conversation_id, epoch, sender.as_str(), seq, ciphertext_hex.as_str());
    let sig = sign(&identity.signing_key, signing_bytes.as_slice());
    let signature = hex_encode(&sig);
    let f = MessageFrame {
        conversation_id: String::from_str(conversation_id),
        epoch,
        sender,
        seq,
        signature,
        ciphertext: ciphertext_hex,
    };
    proof {
        let t = open_spec(key@, ciphertext@, ad@);
        assert(utf8_bytes(f.ciphertext@) == hex_encode_spec(ciphertext@) && t == Ok::<Seq<u8>, CryptoError>(utf8_bytes(plaintext@)));
    }
    Ok(f)
}

/// What opening a frame gives: the checks run in order (the sender key's hex, the
/// signature's hex, the signature, the ciphertext's hex, authentication, UTF-8), the
/// first failure is the error, and otherwise the text.
pub open spec fn open_frame_ok(key: Seq<u8>, frame: MessageFrame, r: Result<String, CoreError>) -> bool {
    let sender = utf8_bytes(frame.sender@);
    let signed = frame_signing_spec(
        utf8_bytes(frame.conversation_id@),
        frame.epoch,
        sender,
        frame.seq,
        utf8_bytes(frame.ciphertext@),
    );
    match hex_key_spec(sender) {
        None => r matches Err(e) && profile_error(e, "bad key"@),
        Some(pk) => match hex_sig_spec(utf8_bytes(frame.signature@)) {
            None => r matches Err(e) && profile_error(e, "bad signature"@),
            Some(sig) => match verify_raw_spec(pk, signed, sig) {
                Err(c) => r matches Err(e) && reports(e, c),
                Ok(_) => match hex_decode_spec(utf8_bytes(frame.ciphertext@)) {
                    None => r matches Err(e) && crypto_failure(e, "bad ciphertext hex"@),
                    Some(ct) => match open_spec(key, ct, aad_spec(utf8_bytes(frame.conversation_id@), frame.epoch)) {
                        Err(c) => r matches Err(e) && reports(e, c),
                        Ok(plain) => if valid_utf8(plain) {
                            r matches Ok(s) && s@ == decode_utf8(plain)
                        } else {
                            r matches Err(e) && crypto_failure(e, "message not valid UTF-8"@)
                        },
                    },
                },
            },
        },
    }
}

/// Verify a frame's signature and open its ciphertext, giving the plaintext. `key`
/// must be the conversation key for the frame's epoch; the signature is checked
/// against the sender key the frame names, and the caller confirms that sender
/// belongs to the conversation.
pub fn open_frame(key: &SymmetricKey, frame: &MessageFrame) -> (r: Result<String, CoreError>)
    ensures
        open_frame_ok(key@, *frame, r),
{
    let sender = match hex_decode_32(frame.sender.as_str()) {
        Some(a) => a,
        None => return Err(CoreError::BadProfile(String::from_str("bad key"))),
    };
    let sig = match hex_decode_64(frame.signature.as_str()) {
        Some(a) => a,
        None => return Err(CoreError::BadProfile(String::from_str("bad signature"))),
    };
    let signing_bytes = MessageFrame::signing_bytes(
        frame.conversation_id.as_str(),
        frame.epoch,
        frame.sender.as_str(),
        frame.seq,
        frame.ciphertext.as_str(),
    );
    match verify_raw(&sender, signing_bytes.as_slice(), &sig) {
        Ok(()) => {},
        Err(e) => return Err(from_crypto(e)),
    }
    let ciphertext = match hex_decode(frame.ciphertext.as_str()) {
        Some(c) => c,
        None => return Err(CoreError::Crypto(String::from_str("bad ciphertext hex"))),
    };
    let ad = aad(frame.conversation_id.as_str(), frame.epoch);
    let plain = match open(key, ciphertext.as_slice(), ad.as_slice()) {
        Ok(p) => p,
        Err(e) => return Err(from_crypto(e)),
    };
    match string_from_utf8(plain) {
        Some(s) => Ok(s),
        None => Err(CoreError::Crypto(String::from_str("message not valid UTF-8"))),
    }
}

/// A frame built by the sender opens, under the same conversation key, to the text
/// that was sent.
pub proof fn lemma_frame_roundtrip(
    signing_key: Seq<u8>,
    conversation_id: Seq<u8>,
    epoch: u64,
    key: Seq<u8>,
    seq: u64,
    plaintext: Seq<char>,
    frame: MessageFrame,
    r: Result<String, CoreError>,
)
    requires
        is_frame_of(signing_key, conversation_id, epoch, key, seq, plaintext, frame),
        open_frame_ok(key, frame, r),
    ensures
        r matches Ok(s) && s@ == plaintext,
{
    let pk = ed25519_public_key(signing_key);
    let sender = hex_encode_spec(pk);
    let signed = frame_signing_spec(conversation_id, epoch, sender, seq, utf8_bytes(frame.ciphertext@));
    crate::hexcode::lemma_hex_roundtrip(pk);
    crate::hexcode::lemma_hex_roundtrip(ed25519_signature(signing_key, signed));
    let ct = choose|ct: Seq<u8>|
        utf8_bytes(frame.ciphertext@) == hex_encode_spec(ct) && #[trigger] open_spec(key, ct, aad_spec(conversation_id, epoch))
            == Ok::<Seq<u8>, CryptoError>(utf8_bytes(plaintext));
    crate::hexcode::lemma_hex_roundtrip(ct);
    vstd::utf8::encode_utf8_valid_utf8(plaintext);
    encode_utf8_decode_utf8(plaintext);
}

} // verus!
