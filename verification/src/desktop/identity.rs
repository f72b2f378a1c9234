//! Profiles, the unit of adding a friend. A profile is public only: the X25519 and
//! Ed25519 public keys and the transport address. It travels as a `seqr:<hex>` token,
//! the hex being that of the profile's compact JSON, so it survives any channel
//! intact. The JSON encoding itself happens outside the library; here are the token's
//! framing and the checks a decoded profile must pass.

use vstd::prelude::*;

use super::vault::{decode32_ok, Friend, VaultData};
use super::{profile_error, CoreError};
use crate::chars::{is_whitespace_spec, strip_prefix, strip_prefix_spec, trim, trim_end_spec, trim_spec, trim_start_spec};
use crate::crypto::primitives::{ed25519_public_key, x25519_public_key};
use crate::hexcode::{dec, hex_decode, hex_decode_spec, hex_encode, hex_encode_spec, hex_key_spec, lemma_hex_ascii, push_decimal};
use crate::protocol::ProfileBlob;
use crate::text::{all_ascii, ascii_chars, lemma_ascii_chars_utf8, lemma_ascii_decode, lemma_ascii_valid_utf8, push_bytes, push_str_bytes, string_from_valid_utf8, utf8_bytes};

verus! {

/// The prefix of a profile token.
pub const TOKEN_PREFIX: &'static str = "seqr:";

/// The profile a vault publishes: version 1, its display name and transport address,
/// and the hex of its two public keys; or the error of the first secret that does not
/// decode.
pub open spec fn profile_ok(data: VaultData, r: Result<ProfileBlob, CoreError>) -> bool {
    let a = utf8_bytes(data.agreement_secret@);
    let s = utf8_bytes(data.signing_secret@);
    match (hex_key_spec(a), hex_key_spec(s)) {
        (Some(ka), Some(ks)) => r matches Ok(p) && p.v == 1 && p.display_name == data.display_name
            && p.node_addr == data.node_addr && utf8_bytes(p.agreement_public@) == hex_encode_spec(
            x25519_public_key(ka),
        ) && utf8_bytes(p.signing_public@) == hex_encode_spec(ed25519_public_key(ks)),
        (None, _) => r matches Err(e) && decode32_ok(a, Err(e)),
        (Some(_), None) => r matches Err(e) && decode32_ok(s, Err(e)),
    }
}

/// Build this account's shareable profile from the unlocked vault.
pub fn profile_for(data: &VaultData) -> (r: Result<ProfileBlob, CoreError>)
    ensures
        profile_ok(*data, r),
{
    let identity = match data.identity() {
        Ok(id) => id,
        Err(e) => return Err(e),
    };
    let public = identity.public();
    Ok(
        ProfileBlob {
            v: ProfileBlob::VERSION,
            display_name: data.display_name.clone(),
            agreement_public: hex_encode(&public.agreement_public),
            signing_public: hex_encode(&public.signing_public),
            node_addr: data.node_addr.clone(),
        },
    )
}

/// The token of a profile's JSON: `seqr:` and the hex of the JSON.
pub open spec fn token_spec(json: Seq<u8>) -> Seq<char> {
    TOKEN_PREFIX@ + ascii_chars(hex_encode_spec(json))
}

/// The bytes of the token prefix.
proof fn lemma_prefix_chars()
    ensures
        TOKEN_PREFIX@ == ascii_chars(seq![115u8, 101, 113, 114, 58]),
        utf8_bytes(TOKEN_PREFIX@) == seq![115u8, 101, 113, 114, 58],
{
    reveal_strlit("seqr:");
    assert(TOKEN_PREFIX@ =~= ascii_chars(seq![115u8, 101, 113, 114, 58]));
    lemma_ascii_chars_utf8(seq![115u8, 101, 113, 114, 58]);
}

/// Encode a profile's JSON as a `seqr:<hex>` token.
pub fn encode_token(json: &[u8]) -> (t: String)
    requires
        json@.len() <= usize::MAX / 2,
    ensures
        t@ == token_spec(json@),
{
    let mut out: Vec<u8> = Vec::new();
    push_str_bytes(&mut out, TOKEN_PREFIX);
    let h = hex_encode(json);
    push_str_bytes(&mut out, h.as_str());
    proof {
        lemma_prefix_chars();
        lemma_hex_ascii(json@);
        let p = seq![115u8, 101, 113, 114, 58];
        let hx = hex_encode_spec(json@);
        assert(out@ =~= p + hx);
        assert(all_ascii(out@)) by {
            assert forall|i: int| 0 <= i < out@.len() implies #[trigger] out@[i] < 128 by {
                if i >= 5 {
                    assert(out@[i] == hx[i - 5]);
                }
            }
        }
        lemma_ascii_valid_utf8(out@);
        lemma_ascii_chars_utf8(out@);
        assert(ascii_chars(out@) =~= ascii_chars(p) + ascii_chars(hx));
    }
    let ghost bytes = out@;
    let t = string_from_valid_utf8(out);
    proof {
        crate::text::lemma_utf8_injective(t@, ascii_chars(bytes));
    }
    t
}

/// What decoding a token gives: the JSON bytes after `seqr:` (surrounding whitespace
/// ignored), or why not.
pub open spec fn decode_token_ok(token: Seq<char>, r: Result<Vec<u8>, CoreError>) -> bool {
    match strip_prefix_spec(trim_spec(token), TOKEN_PREFIX@) {
        None => r matches Err(e) && profile_error(e, "missing seqr: prefix"@),
        Some(rest) => match hex_decode_spec(utf8_bytes(rest)) {
            None => r matches Err(e) && profile_error(e, "not valid hex"@),
            Some(b) => r matches Ok(v) && v@ == b,
        },
    }
}

/// Decode a `seqr:<hex>` token back into the profile's JSON bytes.
pub fn decode_token(token: &str) -> (r: Result<Vec<u8>, CoreError>)
    ensures
        decode_token_ok(token@, r),
{
    let t = trim(token);
    let rest = match strip_prefix(t, TOKEN_PREFIX) {
        Some(r) => r,
        None => return Err(CoreError::BadProfile(String::from_str("missing seqr: prefix"))),
    };
    match hex_decode(rest) {
        Some(b) => Ok(b),
        None => Err(CoreError::BadProfile(String::from_str("not valid hex"))),
    }
}

/// A token decodes to the JSON it was made from.
pub proof fn lemma_token_roundtrip(json: Seq<u8>, r: Result<Vec<u8>, CoreError>)
    requires
        decode_token_ok(token_spec(json), r),
    ensures
        r matches Ok(v) && v@ == json,
{
    lemma_prefix_chars();
    let hx = hex_encode_spec(json);
    lemma_hex_ascii(json);
    let c = token_spec(json);
    let hc = ascii_chars(hx);
    assert(c.len() == 5 + hx.len());
    assert(c[0] == 's');
    assert(!is_whitespace_spec(c[0]));
    assert(trim_start_spec(c) == c);
    assert(c.last() == c[c.len() - 1]);
    if hx.len() > 0 {
        assert(c[c.len() - 1] == hx[hx.len() - 1] as char);
        assert(!is_whitespace_spec(c.last())) by {
            let k = (hx.len() - 1) / 2;
            assert(0 <= json[k] as int / 16 < 16);
        }
    } else {
        assert(c.last() == ':');
    }
    assert(trim_end_spec(c) == c);
    assert(c.take(5) =~= TOKEN_PREFIX@);
    assert(c.skip(5) =~= hc);
    lemma_ascii_chars_utf8(hx);
    crate::hexcode::lemma_hex_roundtrip(json);
}

/// What checking a decoded profile gives: the profile itself when it has version 1
/// and two 32-byte hex keys; else `unsupported version {v}` or `public keys must be 32
/// bytes`.
pub open spec fn validate_ok(p: ProfileBlob, r: Result<ProfileBlob, CoreError>) -> bool {
    if p.v != 1 {
        r matches Err(e) && e matches CoreError::BadProfile(m) && utf8_bytes(m@) == utf8_bytes(
            "unsupported version "@,
        ) + dec(p.v as nat)
    } else if hex_key_spec(utf8_bytes(p.agreement_public@)) is None || hex_key_spec(
        utf8_bytes(p.signing_public@),
    ) is None {
        r matches Err(e) && profile_error(e, "public keys must be 32 bytes"@)
    } else {
        r == Ok::<ProfileBlob, CoreError>(p)
    }
}

/// Check a decoded profile's version and key lengths, so a malformed friend never
/// enters the roster.
pub fn validate_profile(profile: ProfileBlob) -> (r: Result<ProfileBlob, CoreError>)
    ensures
        validate_ok(profile, r),
{
    if profile.v != ProfileBlob::VERSION {
        let mut out: Vec<u8> = Vec::new();
        push_str_bytes(&mut out, "unsupported version ");
        let ghost head = out@;
        push_decimal(&mut out, profile.v as u64);
        proof {
            vstd::utf8::encode_utf8_valid_utf8("unsupported version "@);
            crate::hexcode::lemma_dec_digits(profile.v as nat);
            let d = dec(profile.v as nat);
            assert(all_ascii(d)) by {
                assert forall|i: int| 0 <= i < d.len() implies #[trigger] d[i] < 128 by {
                    assert(48 <= d[i] <= 57);
                }
            }
            lemma_ascii_valid_utf8(d);
            vstd::utf8::valid_utf8_concat(head, d);
        }
        let m = string_from_valid_utf8(out);
        proof {
            vstd::utf8::decode_utf8_encode_utf8(utf8_bytes("unsupported version "@) + dec(profile.v as nat));
        }
        return Err(CoreError::BadProfile(m));
    }
    let a = hex_decode(profile.agreement_public.as_str());
    let s = hex_decode(profile.signing_public.as_str());
    let ok = match (a, s) {
        (Some(x), Some(y)) => x.len() == 32 && y.len() == 32,
        _ => false,
    };
    if !ok {
        return Err(CoreError::BadProfile(String::from_str("public keys must be 32 bytes")));
    }
    Ok(profile)
}

/// Convert a decoded profile into a roster friend.
pub fn friend_from(profile: &ProfileBlob) -> (f: Friend)
    ensures
        f.display_name == profile.display_name,
        f.agreement_public == profile.agreement_public,
        f.signing_public == profile.signing_public,
        f.node_addr == profile.node_addr,
{
    Friend {
        display_name: profile.display_name.clone(),
        agreement_public: profile.agreement_public.clone(),
        signing_public: profile.signing_public.clone(),
        node_addr: profile.node_addr.clone(),
    }
}

/// This account as a roster friend (for the rosters of its groups): its display name
/// and transport address with the hex of its public keys.
pub open spec fn self_friend_ok(data: VaultData, r: Result<Friend, CoreError>) -> bool {
    let a = utf8_bytes(data.agreement_secret@);
    let s = utf8_bytes(data.signing_secret@);
    match (hex_key_spec(a), hex_key_spec(s)) {
        (Some(ka), Some(ks)) => r matches Ok(f) && f.display_name == data.display_name && f.node_addr
            == data.node_addr && utf8_bytes(f.agreement_public@) == hex_encode_spec(x25519_public_key(ka))
            && utf8_bytes(f.signing_public@) == hex_encode_spec(ed25519_public_key(ks)),
        (None, _) => r matches Err(e) && decode32_ok(a, Err(e)),
        (Some(_), None) => r matches Err(e) && decode32_ok(s, Err(e)),
    }
}

/// This account represented as a roster friend.
pub fn self_as_friend(data: &VaultData) -> (r: Result<Friend, CoreError>)
    ensures
        self_friend_ok(*data, r),
{
    let identity = match data.identity() {
        Ok(id) => id,
        Err(e) => return Err(e),
    };
    let p = identity.public();
    Ok(
        Friend {
            display_name: data.display_name.clone(),
            agreement_public: hex_encode(&p.agreement_public),
            signing_public: hex_encode(&p.signing_public),
            node_addr: data.node_addr.clone(),
        },
    )
}

} // verus!
