//! The client side of the mailbox: the requests this account sends. Pull and ack are
//! signed with the account's Ed25519 key over the request's canonical bytes, so only
//! the owner fetches or deletes its mail; the service admits exactly such requests
//! while their timestamp is fresh. The HTTP exchange happens outside.

use vstd::prelude::*;

use crate::crypto::keys::Identity;
use crate::crypto::primitives::{ed25519_public_key, ed25519_signature};
use crate::crypto::sign::sign;
use crate::hexcode::{hex_encode, hex_encode_spec, lemma_hex_roundtrip};
use crate::mailbox::store::lemma_hex_encode_is_hex;
use crate::mailbox::{ack_decision, fresh_spec, pull_decision};
use crate::protocol::mailbox::{ack_signing_spec, pull_signing_spec, AckRequest, PullRequest, PushRequest};
use crate::text::{strings_bytes, trim_end_ascii, trim_end_spec, utf8_bytes};

verus! {

/// The base URL of a mailbox: the configured URL without trailing `/`.
pub fn base_url(url: &str) -> (b: String)
    ensures
        utf8_bytes(b@) == trim_end_spec(utf8_bytes(url@), seq![47u8]),
{
    let slash: [u8; 1] = [47u8];
    assert(slash@ =~= seq![47u8]);
    trim_end_ascii(url, &slash)
}

/// The URL of an endpoint: the base followed by the endpoint's path.
pub fn endpoint(base: &str, path: &str) -> (u: String)
    ensures
        u@ == base@ + path@,
{
    let mut u = String::from_str(base);
    u.append(path);
    u
}

/// A push of `payload` for the recipient `to` (their signing key, hex).
pub fn push_request(to: &str, payload: &str) -> (r: PushRequest)
    ensures
        r.to@ == to@,
        r.payload@ == payload@,
{
    PushRequest { to: String::from_str(to), payload: String::from_str(payload) }
}

/// A pull for this account at `ts`: its signing key in hex, the timestamp, and the hex
/// of its signature over the pull's signing bytes. The service admits it whenever the
/// timestamp is fresh.
pub fn signed_pull_request(identity: &Identity, ts: u64) -> (r: PullRequest)
    ensures
        utf8_bytes(r.identity@) == hex_encode_spec(ed25519_public_key(identity.signing_key@)),
        r.ts == ts,
        utf8_bytes(r.signature@) == hex_encode_spec(
            ed25519_signature(identity.signing_key@, pull_signing_spec(utf8_bytes(r.identity@), ts)),
        ),
        forall|skew: u64, now: u64|
            #[trigger] fresh_spec(ts, skew, now) ==> pull_decision(r, skew, now) == Ok::<(), crate::mailbox::Rejection>(()),
{
    let p = identity.public();
    let id_hex = hex_encode(&p.signing_public);
    let msg = PullRequest::signing_bytes(id_hex.as_str(), ts);
    let sig = sign(&identity.signing_key, msg.as_slice());
    let signature = hex_encode(&sig);
    proof {
        lemma_hex_encode_is_hex(p.signing_public@);
        lemma_hex_encode_is_hex(sig@);
        lemma_hex_roundtrip(p.signing_public@);
        lemma_hex_roundtrip(sig@);
    }
    PullRequest { identity: id_hex, ts, signature }
}

/// An ack of `ids` for this account at `ts`, signed like a pull. The service admits it
/// whenever the timestamp is fresh.
pub fn signed_ack_request(identity: &Identity, ts: u64, ids: Vec<String>) -> (r: AckRequest)
    ensures
        utf8_bytes(r.identity@) == hex_encode_spec(ed25519_public_key(identity.signing_key@)),
        r.ts == ts,
        r.ids@ == ids@,
        utf8_bytes(r.signature@) == hex_encode_spec(
            ed25519_signature(
                identity.signing_key@,
                ack_signing_spec(utf8_bytes(r.identity@), ts, strings_bytes(ids@)),
            ),
        ),
        forall|skew: u64, now: u64|
            #[trigger] fresh_spec(ts, skew, now) ==> ack_decision(r, skew, now) == Ok::<(), crate::mailbox::Rejection>(()),
{
    let p = identity.public();
    let id_hex = hex_encode(&p.signing_public);
    let msg = AckRequest::signing_bytes(id_hex.as_str(), ts, ids.as_slice());
    let sig = sign(&identity.signing_key, msg.as_slice());
    let signature = hex_encode(&sig);
    proof {
        lemma_hex_encode_is_hex(p.signing_public@);
        lemma_hex_encode_is_hex(sig@);
        lemma_hex_roundtrip(p.signing_public@);
        lemma_hex_roundtrip(sig@);
    }
    AckRequest { identity: id_hex, ts, signature, ids }
}

} // verus!
