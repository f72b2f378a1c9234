//! 1:1 conversations: the identifier both parties compute alike, and the keys a
//! conversation is sealed with. The id comes from the two signing public keys, in
//! either order; the key is the pairwise key of the two identities at epoch 0, or a
//! rotated key that one side minted and sent to the other sealed under that pairwise
//! key.

use vstd::prelude::*;

use super::vault::{direct_key_spec, Friend, VaultData};
use super::{crypto_failure, from_crypto, profile_error, reports, CoreError};
use crate::crypto::aead::{open, open_spec, seal};
use crate::crypto::agreement::{derive_pairwise_bytes, pairwise_key_spec};
use crate::crypto::keys::{Identity, PublicIdentity};
use crate::crypto::primitives::ed25519_public_key;
use crate::crypto::SymmetricKey;
use crate::hexcode::{dec, hex_decode, hex_decode_32, hex_decode_spec, hex_encode, hex_encode_spec, hex_key_spec, push_decimal};
use crate::text::{lemma_lex_antisymmetric, lemma_lex_total, lex_le, push_str_bytes, str_lex_le, string_from_valid_utf8, utf8_bytes};
use vstd::utf8::{decode_utf8, encode_utf8_decode_utf8, encode_utf8_valid_utf8, valid_utf8_concat};

verus! {

/// The epoch of the identity-derived key of a 1:1 conversation.
pub const DIRECT_EPOCH: u64 = 0;

/// The id of the 1:1 conversation of two signing keys (hex): the smaller in byte
/// order, `-`, the larger.
pub open spec fn conversation_id_spec(a: Seq<u8>, b: Seq<u8>) -> Seq<u8> {
    if lex_le(a, b) {
        a + seq![45u8] + b
    } else {
        b + seq![45u8] + a
    }
}

/// Both parties compute the same conversation id, whichever order they name the keys.
pub proof fn lemma_conversation_id_order_independent(a: Seq<u8>, b: Seq<u8>)
    ensures
        conversation_id_spec(a, b) == conversation_id_spec(b, a),
{
    lemma_lex_total(a, b);
    if lex_le(a, b) && lex_le(b, a) {
        lemma_lex_antisymmetric(a, b);
    }
}

/// Keys of one length name their conversation uniquely: two conversation ids are equal
/// exactly when they are of the same pair of keys, in either order.
pub proof fn lemma_conversation_id_injective(a: Seq<u8>, b: Seq<u8>, c: Seq<u8>, d: Seq<u8>)
    requires
        b.len() == a.len(),
        c.len() == a.len(),
        d.len() == a.len(),
    ensures
        conversation_id_spec(a, b) == conversation_id_spec(c, d) <==> ((a == c && b == d) || (a == d && b == c)),
{
    lemma_conversation_id_order_independent(c, d);
    let (x, y) = if lex_le(a, b) {
        (a, b)
    } else {
        (b, a)
    };
    let (u, v) = if lex_le(c, d) {
        (c, d)
    } else {
        (d, c)
    };
    let s = conversation_id_spec(a, b);
    let t = conversation_id_spec(c, d);
    assert(s == x + seq![45u8] + y);
    assert(t == u + seq![45u8] + v);
    if s == t {
        let n = a.len() as int;
        assert(x =~= s.take(n));
        assert(u =~= t.take(n));
        assert(y =~= s.skip(n + 1));
        assert(v =~= t.skip(n + 1));
    }
}

/// Order-independent conversation id for the two parties' signing public keys.
pub fn direct_conversation_id(a_signing_hex: &str, b_signing_hex: &str) -> (r: String)
    ensures
        utf8_bytes(r@) == conversation_id_spec(utf8_bytes(a_signing_hex@), utf8_bytes(b_signing_hex@)),
{
    let (lo, hi) = if str_lex_le(a_signing_hex, b_signing_hex) {
        (a_signing_hex, b_signing_hex)
    } else {
        (b_signing_hex, a_signing_hex)
    };
    let mut out: Vec<u8> = Vec::new();
    push_str_bytes(&mut out, lo);
    out.push(45u8);
    push_str_bytes(&mut out, hi);
    proof {
        let l = utf8_bytes(lo@);
        let h = utf8_bytes(hi@);
        assert(out@ =~= l + seq![45u8] + h);
        encode_utf8_valid_utf8(lo@);
        encode_utf8_valid_utf8(hi@);
        crate::text::lemma_ascii_valid_utf8(seq![45u8]);
        valid_utf8_concat(l, seq![45u8]);
        valid_utf8_concat(l + seq![45u8], h);
    }
    string_from_valid_utf8(out)
}

/// A friend's X25519 public key, when the roster holds 32 bytes of hex for it.
pub open spec fn agreement_key_of(f: Friend) -> Option<Seq<u8>> {
    hex_key_spec(utf8_bytes(f.agreement_public@))
}

/// The pairwise key with `friend`, or `BadProfile("bad agreement key")`.
pub open spec fn pairwise_ok(my_secret: Seq<u8>, friend: Friend, r: Result<SymmetricKey, CoreError>) -> bool {
    match agreement_key_of(friend) {
        Some(p) => r matches Ok(k) && k@ == pairwise_key_spec(my_secret, p),
        None => r matches Err(e) && profile_error(e, "bad agreement key"@),
    }
}

/// Derive the pairwise symmetric key for a conversation with `friend`.
pub fn pairwise_key(me: &Identity, friend: &Friend) -> (r: Result<SymmetricKey, CoreError>)
    ensures
        pairwise_ok(me.agreement_secret@, *friend, r),
{
    match hex_decode_32(friend.agreement_public.as_str()) {
        Some(theirs) => Ok(derive_pairwise_bytes(&me.agreement_secret, &theirs)),
        None => Err(CoreError::BadProfile(String::from_str("bad agreement key"))),
    }
}

/// The associated data of a sealed rotated key: `seqr-directkey|{conversation}|{epoch}`.
pub open spec fn direct_key_aad_spec(conversation_id: Seq<u8>, epoch: u64) -> Seq<u8> {
    utf8_bytes("seqr-directkey|"@) + conversation_id + utf8_bytes("|"@) + dec(epoch as nat)
}

/// The associated data binding a sealed rotated key to its conversation and epoch.
pub fn direct_key_aad(conversation_id: &str, epoch: u64) -> (b: Vec<u8>)
    ensures
        b@ == direct_key_aad_spec(utf8_bytes(conversation_id@), epoch),
{
    let mut out: Vec<u8> = Vec::new();
    push_str_bytes(&mut out, "seqr-directkey|");
    push_str_bytes(&mut out, conversation_id);
    push_str_bytes(&mut out, "|");
    push_decimal(&mut out, epoch);
    out
}

/// `sealed_hex` is the hex of `key` sealed under the pairwise key of `my_secret` and
/// `friend`, for the conversation and epoch.
pub open spec fn direct_key_sealed(
    my_secret: Seq<u8>,
    friend: Friend,
    conversation_id: Seq<u8>,
    epoch: u64,
    key: Seq<u8>,
    sealed_hex: Seq<u8>,
) -> bool {
    exists|sealed: Seq<u8>|
        sealed_hex == hex_encode_spec(sealed) && #[trigger] open_spec(
            pairwise_key_spec(my_secret, agreement_key_of(friend)->0),
            sealed,
            direct_key_aad_spec(conversation_id, epoch),
        ) == Ok::<Seq<u8>, crate::crypto::CryptoError>(key)
}

/// Seal a rotated 1:1 key for `friend`, under the long-term identity pairwise key.
pub fn seal_direct_key(
    me: &Identity,
    friend: &Friend,
    conversation_id: &str,
    epoch: u64,
    key: &SymmetricKey,
) -> (r: Result<String, CoreError>)
    ensures
        match agreement_key_of(*friend) {
            Some(_) => match r {
                Ok(h) => direct_key_sealed(
                    me.agreement_secret@,
                    *friend,
                    utf8_bytes(conversation_id@),
                    epoch,
                    key@,
                    utf8_bytes(h@),
                ),
                Err(e) => reports(e, crate::crypto::CryptoError::Rng),
            },
            None => r matches Err(e) && profile_error(e, "bad agreement key"@),
        },
{
    let base = match pairwise_key(me, friend) {
        Ok(k) => k,
        Err(e) => return Err(e),
    };
    let aad = direct_key_aad(conversation_id, epoch);
    let sealed = match seal(&base, key, aad.as_slice()) {
        Ok(x) => x,
        Err(e) => return Err(from_crypto(e)),
    };
    let h = hex_encode(sealed.as_slice());
    proof {
        let t = open_spec(base@, sealed@, aad@);
        assert(utf8_bytes(h@) == hex_encode_spec(sealed@) && t == Ok::<Seq<u8>, crate::crypto::CryptoError>(key@));
    }
    Ok(h)
}

/// What opening a rotated key gives: the 32-byte key, or the first failure (the
/// originator's agreement key, the hex of the sealed key, authentication, the length).
pub open spec fn open_direct_ok(
    my_secret: Seq<u8>,
    originator: Friend,
    conversation_id: Seq<u8>,
    epoch: u64,
    sealed_hex: Seq<u8>,
    r: Result<SymmetricKey, CoreError>,
) -> bool {
    match agreement_key_of(originator) {
        None => r matches Err(e) && profile_error(e, "bad agreement key"@),
        Some(p) => match hex_decode_spec(sealed_hex) {
            None => r matches Err(e) && crypto_failure(e, "bad sealed key"@),
            Some(sealed) => match open_spec(
                pairwise_key_spec(my_secret, p),
                sealed,
                direct_key_aad_spec(conversation_id, epoch),
            ) {
                Err(c) => r matches Err(e) && reports(e, c),
                Ok(plain) => if plain.len() == 32 {
                    r matches Ok(k) && k@ == plain
                } else {
                    r matches Err(e) && crypto_failure(e, "key wrong length"@)
                },
            },
        },
    }
}

/// Copy exactly 32 bytes into an array.
pub(crate) fn to_key(v: &Vec<u8>) -> (k: SymmetricKey)
    requires
        v@.len() == 32,
    ensures
        k@ == v@,
{
    let mut k = [0u8; 32];
    let mut i: usize = 0;
    while i < 32
        invariant
            v@.len() == 32,
            0 <= i <= 32,
            forall|j: int| 0 <= j < i ==> k@[j] == v@[j],
        decreases 32 - i,
    {
        k[i] = v[i];
        i = i + 1;
    }
    assert(k@ =~= v@);
    k
}

/// Open a rotated 1:1 key sent by `originator`.
pub fn open_direct_key(
    me: &Identity,
    originator: &Friend,
    conversation_id: &str,
    epoch: u64,
    sealed_hex: &str,
) -> (r: Result<SymmetricKey, CoreError>)
    ensures
        open_direct_ok(
            me.agreement_secret@,
            *originator,
            utf8_bytes(conversation_id@),
            epoch,
            utf8_bytes(sealed_hex@),
            r,
        ),
{
    let base = match pairwise_key(me, originator) {
        Ok(k) => k,
        Err(e) => return Err(e),
    };
    let sealed = match hex_decode(sealed_hex) {
        Some(s) => s,
        None => return Err(CoreError::Crypto(String::from_str("bad sealed key"))),
    };
    let aad = direct_key_aad(conversation_id, epoch);
    let plain = match open(&base, sealed.as_slice(), aad.as_slice()) {
        Ok(p) => p,
        Err(e) => return Err(from_crypto(e)),
    };
    if plain.len() != 32 {
        return Err(CoreError::Crypto(String::from_str("key wrong length")));
    }
    Ok(to_key(&plain))
}

/// A key that one party sealed for the other with `seal_direct_key` opens, for the
/// other party, with `open_direct_key` naming the first as originator: both sides of a
/// pair hold the same pairwise key.
pub proof fn lemma_rotated_key_opens(
    alice: Identity,
    bob: Identity,
    alice_public: PublicIdentity,
    bob_public: PublicIdentity,
    alice_friend: Friend,
    bob_friend: Friend,
    conversation_id: Seq<u8>,
    epoch: u64,
    key: Seq<u8>,
    sealed_hex: Seq<u8>,
    r: Result<SymmetricKey, CoreError>,
)
    requires
        Identity::is_public_of(alice_public, alice),
        Identity::is_public_of(bob_public, bob),
        utf8_bytes(alice_friend.agreement_public@) == hex_encode_spec(alice_public.agreement_public@),
        utf8_bytes(bob_friend.agreement_public@) == hex_encode_spec(bob_public.agreement_public@),
        direct_key_sealed(alice.agreement_secret@, bob_friend, conversation_id, epoch, key, sealed_hex),
        key.len() == 32,
        open_direct_ok(bob.agreement_secret@, alice_friend, conversation_id, epoch, sealed_hex, r),
    ensures
        r matches Ok(k) && k@ == key,
{
    crate::hexcode::lemma_hex_roundtrip(alice_public.agreement_public@);
    crate::hexcode::lemma_hex_roundtrip(bob_public.agreement_public@);
    let sealed = choose|sealed: Seq<u8>|
        sealed_hex == hex_encode_spec(sealed) && #[trigger] open_spec(
            pairwise_key_spec(alice.agreement_secret@, agreement_key_of(bob_friend)->0),
            sealed,
            direct_key_aad_spec(conversation_id, epoch),
        ) == Ok::<Seq<u8>, crate::crypto::CryptoError>(key);
    crate::hexcode::lemma_hex_roundtrip(sealed);
    assert(pairwise_key_spec(bob.agreement_secret@, alice_public.agreement_public@) == pairwise_key_spec(
        alice.agreement_secret@,
        x25519_public_key_of(bob),
    ));
}

/// The X25519 public key of an identity.
pub open spec fn x25519_public_key_of(id: Identity) -> Seq<u8> {
    crate::crypto::primitives::x25519_public_key(id.agreement_secret@)
}

/// The conversation id of this account and `friend`, as characters.
pub open spec fn my_conversation_with(me: Identity, friend: Friend) -> Seq<char> {
    decode_utf8(
        conversation_id_spec(hex_encode_spec(ed25519_public_key(me.signing_key@)), utf8_bytes(friend.signing_public@)),
    )
}

/// The conversation id of this account and `friend`.
fn conversation_with(me: &Identity, friend: &Friend) -> (c: String)
    ensures
        c@ == my_conversation_with(*me, *friend),
        utf8_bytes(c@) == conversation_id_spec(
            hex_encode_spec(ed25519_public_key(me.signing_key@)),
            utf8_bytes(friend.signing_public@),
        ),
{
    let p = me.public();
    let my_signing = hex_encode(&p.signing_public);
    let c = direct_conversation_id(my_signing.as_str(), friend.signing_public.as_str());
    proof {
        encode_utf8_decode_utf8(c@);
    }
    c
}

/// The current key and epoch of the 1:1 with `friend`: the stored rotated key if there
/// is one (`Crypto("bad stored key")` if it is not 32 bytes of hex), else the pairwise
/// key at epoch 0.
pub open spec fn current_direct_ok(data: VaultData, me: Identity, friend: Friend, r: Result<(u64, SymmetricKey), CoreError>) -> bool {
    match direct_key_spec(data.direct_keys@, my_conversation_with(me, friend)) {
        Some(dk) => match hex_key_spec(utf8_bytes(dk.key@)) {
            Some(k) => r matches Ok(ek) && ek.0 == dk.epoch && ek.1@ == k,
            None => r matches Err(e) && crypto_failure(e, "bad stored key"@),
        },
        None => match agreement_key_of(friend) {
            Some(p) => r matches Ok(ek) && ek.0 == DIRECT_EPOCH && ek.1@ == pairwise_key_spec(me.agreement_secret@, p),
            None => r matches Err(e) && profile_error(e, "bad agreement key"@),
        },
    }
}

/// The current key and epoch for a 1:1 with `friend`: a rotated key if present, else
/// the identity-derived pairwise key at epoch 0.
pub fn current_direct_key(data: &VaultData, me: &Identity, friend: &Friend) -> (r: Result<(u64, SymmetricKey), CoreError>)
    ensures
        current_direct_ok(*data, *me, *friend, r),
{
    let conv_id = conversation_with(me, friend);
    match data.direct_key(conv_id.as_str()) {
        Some(dk) => match hex_decode_32(dk.key.as_str()) {
            Some(key) => Ok((dk.epoch, key)),
            None => Err(CoreError::Crypto(String::from_str("bad stored key"))),
        },
        None => match pairwise_key(me, friend) {
            Ok(k) => Ok((DIRECT_EPOCH, k)),
            Err(e) => Err(e),
        },
    }
}

/// The key of a 1:1 at `epoch`: epoch 0 is the pairwise key; any other epoch must be
/// that of the stored rotated key (`Crypto("unknown key epoch")` otherwise).
pub open spec fn epoch_key_ok(data: VaultData, me: Identity, friend: Friend, epoch: u64, r: Result<SymmetricKey, CoreError>) -> bool {
    if epoch == DIRECT_EPOCH {
        pairwise_ok(me.agreement_secret@, friend, r)
    } else {
        match direct_key_spec(data.direct_keys@, my_conversation_with(me, friend)) {
            Some(dk) => if dk.epoch == epoch {
                match hex_key_spec(utf8_bytes(dk.key@)) {
                    Some(k) => r matches Ok(a) && a@ == k,
                    None => r matches Err(e) && crypto_failure(e, "bad stored key"@),
                }
            } else {
                r matches Err(e) && crypto_failure(e, "unknown key epoch"@)
            },
            None => r matches Err(e) && crypto_failure(e, "unknown key epoch"@),
        }
    }
}

/// The key for a specific 1:1 `epoch`, to open a received frame.
pub fn direct_key_for_epoch(data: &VaultData, me: &Identity, friend: &Friend, epoch: u64) -> (r: Result<SymmetricKey, CoreError>)
    ensures
        epoch_key_ok(*data, *me, *friend, epoch, r),
{
    if epoch == DIRECT_EPOCH {
        return pairwise_key(me, friend);
    }
    let conv_id = conversation_with(me, friend);
    match data.direct_key(conv_id.as_str()) {
        Some(dk) => {
            if dk.epoch == epoch {
                match hex_decode_32(dk.key.as_str()) {
                    Some(key) => Ok(key),
                    None => Err(CoreError::Crypto(String::from_str("bad stored key"))),
                }
            } else {
                Err(CoreError::Crypto(String::from_str("unknown key epoch")))
            }
        },
        None => Err(CoreError::Crypto(String::from_str("unknown key epoch"))),
    }
}

} // verus!
