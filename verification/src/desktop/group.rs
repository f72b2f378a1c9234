//! Group keys: a group key is delivered to each member sealed under the pairwise key
//! between the originator and that member. That pairwise key is the same on both sides,
//! so the recipient opens it with the same derivation against the originator.

use vstd::prelude::*;

use super::conversation::{agreement_key_of, pairwise_key, to_key};
use super::vault::Friend;
use super::{crypto_failure, from_crypto, profile_error, reports, CoreError};
use crate::crypto::aead::{open, open_spec, seal};
use crate::crypto::agreement::pairwise_key_spec;
use crate::crypto::group::generate_group_key;
use crate::crypto::keys::{Identity, PublicIdentity};
use crate::crypto::SymmetricKey;
use crate::hexcode::{dec, hex_decode, hex_decode_spec, hex_encode, hex_encode_spec, push_decimal};
use crate::text::{push_str_bytes, utf8_bytes};

verus! {

/// The associated data of a sealed group key: `seqr-groupkey|{group}|{epoch}`.
pub open spec fn key_aad_spec(group_id: Seq<u8>, epoch: u64) -> Seq<u8> {
    utf8_bytes("seqr-groupkey|"@) + group_id + utf8_bytes("|"@) + dec(epoch as nat)
}

/// The associated data binding a sealed group key to its group and epoch.
pub fn key_aad(group_id: &str, epoch: u64) -> (b: Vec<u8>)
    ensures
        b@ == key_aad_spec(utf8_bytes(group_id@), epoch),
{
    let mut out: Vec<u8> = Vec::new();
    push_str_bytes(&mut out, "seqr-groupkey|");
    push_str_bytes(&mut out, group_id);
    push_str_bytes(&mut out, "|");
    push_decimal(&mut out, epoch);
    out
}

/// `sealed_hex` is the hex of `key` sealed for `recipient` under the pairwise key of
/// `my_secret` and the recipient, for the group and epoch.
pub open spec fn group_key_sealed(
    my_secret: Seq<u8>,
    recipient: Friend,
    group_id: Seq<u8>,
    epoch: u64,
    key: Seq<u8>,
    sealed_hex: Seq<u8>,
) -> bool {
    exists|sealed: Seq<u8>|
        sealed_hex == hex_encode_spec(sealed) && #[trigger] open_spec(
            pairwise_key_spec(my_secret, agreement_key_of(recipient)->0),
            sealed,
            key_aad_spec(group_id, epoch),
        ) == Ok::<Seq<u8>, crate::crypto::CryptoError>(key)
}

/// Seal the group key for one recipient, under the pairwise key between us and them.
pub fn seal_group_key(
    me: &Identity,
    recipient: &Friend,
    group_id: &str,
    epoch: u64,
    key: &SymmetricKey,
) -> (r: Result<String, CoreError>)
    ensures
        match agreement_key_of(*recipient) {
            Some(_) => match r {
                Ok(h) => group_key_sealed(
                    me.agreement_secret@,
                    *recipient,
                    utf8_bytes(group_id@),
                    epoch,
                    key@,
                    utf8_bytes(h@),
                ),
                Err(e) => reports(e, crate::crypto::CryptoError::Rng),
            },
            None => r matches Err(e) && profile_error(e, "bad agreement key"@),
        },
{
    let pair = match pairwise_key(me, recipient) {
        Ok(k) => k,
        Err(e) => return Err(e),
    };
    let aad = key_aad(group_id, epoch);
    let sealed = match seal(&pair, key, aad.as_slice()) {
        Ok(x) => x,
        Err(e) => return Err(from_crypto(e)),
    };
    let h = hex_encode(sealed.as_slice());
    proof {
        let t = open_spec(pair@, sealed@, aad@);
        assert(utf8_bytes(h@) == hex_encode_spec(sealed@) && t == Ok::<Seq<u8>, crate::crypto::CryptoError>(key@));
    }
    Ok(h)
}

/// What opening a sealed group key gives: the 32-byte key, or the first failure (the
/// originator's agreement key, the hex, authentication, the length).
pub open spec fn open_group_ok(
    my_secret: Seq<u8>,
    originator: Friend,
    group_id: Seq<u8>,
    epoch: u64,
    sealed_hex: Seq<u8>,
    r: Result<SymmetricKey, CoreError>,
) -> bool {
    match agreement_key_of(originator) {
        None => r matches Err(e) && profile_error(e, "bad agreement key"@),
        Some(p) => match hex_decode_spec(sealed_hex) {
            None => r matches Err(e) && crypto_failure(e, "bad sealed key"@),
            Some(sealed) => match open_spec(pairwise_key_spec(my_secret, p), sealed, key_aad_spec(group_id, epoch)) {
                Err(c) => r matches Err(e) && reports(e, c),
                Ok(plain) => if plain.len() == 32 {
                    r matches Ok(k) && k@ == plain
                } else {
                    r matches Err(e) && crypto_failure(e, "group key wrong length"@)
                },
            },
        },
    }
}

/// Open a sealed group key sent to us by `originator`.
pub fn open_group_key(
    me: &Identity,
    originator: &Friend,
    group_id: &str,
    epoch: u64,
    sealed_hex: &str,
) -> (r: Result<SymmetricKey, CoreError>)
    ensures
        open_group_ok(me.agreement_secret@, *originator, utf8_bytes(group_id@), epoch, utf8_bytes(sealed_hex@), r),
{
    let pair = match pairwise_key(me, originator) {
        Ok(k) => k,
        Err(e) => return Err(e),
    };
    let sealed = match hex_decode(sealed_hex) {
        Some(s) => s,
        None => return Err(CoreError::Crypto(String::from_str("bad sealed key"))),
    };
    let aad = key_aad(group_id, epoch);
    let plain = match open(&pair, sealed.as_slice(), aad.as_slice()) {
        Ok(p) => p,
        Err(e) => return Err(from_crypto(e)),
    };
    if plain.len() != 32 {
        return Err(CoreError::Crypto(String::from_str("group key wrong length")));
    }
    Ok(to_key(&plain))
}

/// A group key sealed by the originator for a member opens for that member, who names
/// the originator: the two share the pairwise key.
pub proof fn lemma_group_key_opens_for_member(
    originator: Identity,
    member: Identity,
    originator_public: PublicIdentity,
    member_public: PublicIdentity,
    originator_friend: Friend,
    member_friend: Friend,
    group_id: Seq<u8>,
    epoch: u64,
    key: Seq<u8>,
    sealed_hex: Seq<u8>,
    r: Result<SymmetricKey, CoreError>,
)
    requires
        Identity::is_public_of(originator_public, originator),
        Identity::is_public_of(member_public, member),
        utf8_bytes(originator_friend.agreement_public@) == hex_encode_spec(originator_public.agreement_public@),
        utf8_bytes(member_friend.agreement_public@) == hex_encode_spec(member_public.agreement_public@),
        group_key_sealed(originator.agreement_secret@, member_friend, group_id, epoch, key, sealed_hex),
        key.len() == 32,
        open_group_ok(member.agreement_secret@, originator_friend, group_id, epoch, sealed_hex, r),
    ensures
        r matches Ok(k) && k@ == key,
{
    crate::hexcode::lemma_hex_roundtrip(originator_public.agreement_public@);
    crate::hexcode::lemma_hex_roundtrip(member_public.agreement_public@);
    let sealed = choose|sealed: Seq<u8>|
        sealed_hex == hex_encode_spec(sealed) && #[trigger] open_spec(
            pairwise_key_spec(originator.agreement_secret@, agreement_key_of(member_friend)->0),
            sealed,
            key_aad_spec(group_id, epoch),
        ) == Ok::<Seq<u8>, crate::crypto::CryptoError>(key);
    crate::hexcode::lemma_hex_roundtrip(sealed);
    assert(pairwise_key_spec(member.agreement_secret@, originator_public.agreement_public@) == pairwise_key_spec(
        originator.agreement_secret@,
        crate::crypto::primitives::x25519_public_key(member.agreement_secret@),
    ));
}

/// A short random group id: the hex of 16 fresh random bytes; the error of an
/// unavailable system random source otherwise.
pub fn new_group_id() -> (r: Result<String, CoreError>)
    ensures
        match r {
            Ok(id) => exists|b: Seq<u8>| b.len() == 16 && utf8_bytes(id@) == hex_encode_spec(b),
            Err(e) => reports(e, crate::crypto::CryptoError::Rng),
        },
{
    let bytes = match generate_group_key() {
        Ok(b) => b,
        Err(e) => return Err(from_crypto(e)),
    };
    let id = hex_encode(&bytes[0..16]);
    proof {
        let b = bytes@.subrange(0, 16);
        assert(utf8_bytes(id@) == hex_encode_spec(b));
    }
    Ok(id)
}

} // verus!
