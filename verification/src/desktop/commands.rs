//! What the user interface asks of the core: listing conversations, sending, receiving
//! and rotating keys, managing friends and groups. Each operation works on the
//! unlocked vault and returns what must be sent or shown; persisting the vault and
//! delivering packets happen outside.

use vstd::prelude::*;

use super::conversation::{
    agreement_key_of, conversation_id_spec, current_direct_key, current_direct_ok, direct_conversation_id,
    direct_key_sealed, seal_direct_key,
};
use super::message::{build_frame, is_frame_of};
use super::net::only_messages_changed;
use super::group::{group_key_sealed, new_group_id, seal_group_key};
use super::identity::{self_as_friend, self_friend_ok};
use super::net::only_groups_changed;
use super::packet::{meta_signing_spec, AttachmentMeta, GroupInvite, KeyUpdate};
use super::vault::{
    copy_friends, position_of_friend, copy_attachment, copy_friend, copy_message, decode32_ok, direct_key_spec, friend_index, group_index,
    group_spec, has_identity, identity_fails, is_identity_of, lemma_identity_result, outgoing_in,
    AttachmentInfo, Friend, Group, StoredMessage, VaultData,
};
use super::{crypto_failure, from_crypto, profile_error, reports, CoreError};
use crate::crypto::group::generate_group_key;
use crate::crypto::primitives::chacha_plaintext_ok;
use crate::protocol::MessageFrame;
use crate::clock::now_millis;
use crate::crypto::fingerprint::{safety_number, safety_number_spec};
use crate::crypto::keys::Identity;
use crate::crypto::primitives::{base64_encode, base64_standard, ed25519_public_key, ed25519_signature};
use crate::crypto::sign::sign;
use crate::crypto::{CryptoError, SymmetricKey};
use crate::hexcode::{hex_decode_32, hex_encode, hex_encode_spec, hex_key_spec};
use crate::text::{str_eq, utf8_bytes};

verus! {

/// Whether an account exists and whether it is unlocked.
pub struct AppStatus {
    pub account_exists: bool,
    pub unlocked: bool,
}

/// A conversation as the user interface lists it (1:1 or group).
#[derive(Debug, Clone, PartialEq, Eq)]
pub struct ConversationDto {
    pub id: String,
    /// `direct` or `group`.
    pub kind: String,
    pub title: String,
    /// For a 1:1, the peer's signing public key; `None` for groups.
    pub peer: Option<String>,
    pub members: usize,
}

/// The listing of the 1:1 with `f`, for an account whose signing key is `my` (hex).
pub open spec fn direct_dto_ok(d: ConversationDto, my: Seq<u8>, f: Friend) -> bool {
    &&& utf8_bytes(d.id@) == conversation_id_spec(my, utf8_bytes(f.signing_public@))
    &&& d.kind@ == "direct"@
    &&& d.title == f.display_name
    &&& d.peer == Some(f.signing_public)
    &&& d.members == 2
}

/// The listing of group `g`.
pub open spec fn group_dto_ok(d: ConversationDto, g: Group) -> bool {
    &&& d.id == g.id
    &&& d.kind@ == "group"@
    &&& d.title == g.name
    &&& d.peer is None
    &&& d.members == g.members@.len() + 1
}

/// The signing key (hex) of the identity a vault holds.
pub open spec fn my_signing_hex(data: VaultData) -> Seq<u8> {
    hex_encode_spec(ed25519_public_key(hex_key_spec(utf8_bytes(data.signing_secret@))->0))
}

/// The signing key (hex) of an identity.
fn signing_hex(me: &Identity) -> (h: String)
    ensures
        utf8_bytes(h@) == hex_encode_spec(ed25519_public_key(me.signing_key@)),
{
    let p = me.public();
    hex_encode(&p.signing_public)
}

/// All conversations, 1:1 first (one per friend, in roster order), then groups.
pub fn list_conversations(data: &VaultData) -> (r: Result<Vec<ConversationDto>, CoreError>)
    requires
        forall|i: int| 0 <= i < data.groups@.len() ==> (#[trigger] data.groups@[i]).members@.len() < usize::MAX,
    ensures
        !has_identity(*data) ==> (r matches Err(e) && identity_fails(*data, e)),
        has_identity(*data) ==> (r matches Ok(v) && v@.len() == data.friends@.len() + data.groups@.len()
            && (forall|i: int|
            0 <= i < data.friends@.len() ==> direct_dto_ok(
                #[trigger] v@[i],
                my_signing_hex(*data),
                data.friends@[i],
            )) && (forall|j: int|
            0 <= j < data.groups@.len() ==> group_dto_ok(
                #[trigger] v@[data.friends@.len() + j],
                data.groups@[j],
            ))),
{
    let me = match data.identity() {
        Ok(id) => id,
        Err(e) => {
            proof {
                lemma_identity_result(*data, Err(e));
            }
            return Err(e);
        },
    };
    proof {
        lemma_identity_result(*data, Ok(me));
    }
    let my_signing = signing_hex(&me);
    let mut out: Vec<ConversationDto> = Vec::new();
    let mut i: usize = 0;
    while i < data.friends.len()
        invariant
            0 <= i <= data.friends@.len(),
            out@.len() == i,
            utf8_bytes(my_signing@) == my_signing_hex(*data),
            forall|k: int| 0 <= k < i ==> direct_dto_ok(#[trigger] out@[k], my_signing_hex(*data), data.friends@[k]),
        decreases data.friends@.len() - i,
    {
        let f = &data.friends[i];
        let d = ConversationDto {
            id: direct_conversation_id(my_signing.as_str(), f.signing_public.as_str()),
            kind: String::from_str("direct"),
            title: f.display_name.clone(),
            peer: Some(f.signing_public.clone()),
            members: 2,
        };
        out.push(d);
        i = i + 1;
    }
    let mut j: usize = 0;
    while j < data.groups.len()
        invariant
            0 <= j <= data.groups@.len(),
            out@.len() == data.friends@.len() + j,
            forall|i: int| 0 <= i < data.groups@.len() ==> (#[trigger] data.groups@[i]).members@.len() < usize::MAX,
            forall|k: int| 0 <= k < data.friends@.len() ==> direct_dto_ok(#[trigger] out@[k], my_signing_hex(*data), data.friends@[k]),
            forall|k: int| 0 <= k < j ==> group_dto_ok(#[trigger] out@[data.friends@.len() + k], data.groups@[k]),
        decreases data.groups@.len() - j,
    {
        let g = &data.groups[j];
        let d = ConversationDto {
            id: g.id.clone(),
            kind: String::from_str("group"),
            title: g.name.clone(),
            peer: None,
            members: g.members.len() + 1,
        };
        out.push(d);
        proof {
            assert forall|k: int| 0 <= k < j + 1 implies group_dto_ok(#[trigger] out@[data.friends@.len() + k], data.groups@[k]) by {
                if k < j {
                    assert(out@[data.friends@.len() + k] == old_out_k(out@, data.friends@.len() + k));
                }
            }
        }
        j = j + 1;
    }
    Ok(out)
}

/// An element of a listing (names the term the proof of `list_conversations` needs).
spec fn old_out_k(v: Seq<ConversationDto>, k: int) -> ConversationDto {
    v[k]
}

/// An outgoing message as it is stored: from `my_signing`, sent now.
pub fn stored_outgoing(
    conversation_id: &str,
    my_signing: &str,
    body: &str,
    seq: u64,
    attachment: Option<AttachmentInfo>,
) -> (m: StoredMessage)
    ensures
        m.conversation_id@ == conversation_id@,
        m.sender@ == my_signing@,
        m.body@ == body@,
        m.outgoing,
        m.seq == seq,
        m.attachment == attachment,
{
    StoredMessage {
        conversation_id: String::from_str(conversation_id),
        sender: String::from_str(my_signing),
        body: String::from_str(body),
        ts: now_millis(),
        outgoing: true,
        seq,
        attachment,
    }
}

/// An ASCII hex digit of either case.
pub open spec fn is_ascii_hexdigit(b: u8) -> bool {
    (48 <= b <= 57) || (97 <= b <= 102) || (65 <= b <= 70)
}

/// An attachment id the user interface may name: 1 to 64 hex digits.
pub open spec fn valid_att_id_spec(t: Seq<u8>) -> bool {
    &&& 0 < t.len() <= 64
    &&& forall|i: int| 0 <= i < t.len() ==> #[trigger] is_ascii_hexdigit(t[i])
}

/// Whether an attachment id is 1 to 64 hex digits (so it is safe as a path component).
pub fn valid_att_id(id: &str) -> (r: bool)
    ensures
        r == valid_att_id_spec(utf8_bytes(id@)),
{
    let b = id.as_bytes();
    if b.len() == 0 || b.len() > 64 {
        return false;
    }
    let mut i: usize = 0;
    while i < b.len()
        invariant
            b@ == utf8_bytes(id@),
            0 <= i <= b@.len(),
            forall|k: int| 0 <= k < i ==> #[trigger] is_ascii_hexdigit(b@[k]),
        decreases b@.len() - i,
    {
        let c = b[i];
        if !((48 <= c && c <= 57) || (97 <= c && c <= 102) || (65 <= c && c <= 70)) {
            assert(!is_ascii_hexdigit(b@[i as int]));
            return false;
        }
        i = i + 1;
    }
    true
}

/// The MIME type recorded for an attachment: that of the first stored message carrying
/// it, else `application/octet-stream`.
pub open spec fn attachment_mime_spec(messages: Seq<StoredMessage>, att_id: Seq<char>) -> Seq<char>
    decreases messages.len(),
{
    if messages.len() == 0 {
        "application/octet-stream"@
    } else {
        match messages[0].attachment {
            Some(a) => if a.id@ == att_id {
                a.mime@
            } else {
                attachment_mime_spec(messages.drop_first(), att_id)
            },
            None => attachment_mime_spec(messages.drop_first(), att_id),
        }
    }
}

/// The MIME type of an attachment, for an inline preview.
pub fn attachment_mime(data: &VaultData, att_id: &str) -> (m: String)
    ensures
        m@ == attachment_mime_spec(data.messages@, att_id@),
{
    let mut i: usize = 0;
    proof {
        assert(data.messages@.skip(0) =~= data.messages@);
    }
    while i < data.messages.len()
        invariant
            0 <= i <= data.messages@.len(),
            attachment_mime_spec(data.messages@, att_id@) == attachment_mime_spec(data.messages@.skip(i as int), att_id@),
        decreases data.messages@.len() - i,
    {
        let ghost rest = data.messages@.skip(i as int);
        proof {
            assert(rest[0] == data.messages@[i as int]);
            assert(rest.drop_first() =~= data.messages@.skip(i + 1));
        }
        match &data.messages[i].attachment {
            Some(a) => {
                if str_eq(a.id.as_str(), att_id) {
                    proof {
                        crate::text::lemma_utf8_injective(a.id@, att_id@);
                    }
                    return a.mime.clone();
                } else {
                    proof {
                        if a.id@ == att_id@ {
                            assert(utf8_bytes(a.id@) == utf8_bytes(att_id@));
                        }
                    }
                }
            },
            None => {},
        }
        i = i + 1;
    }
    String::from_str("application/octet-stream")
}

/// A `data:` URL of bytes of a MIME type: `data:{mime};base64,{standard base64}`.
pub fn data_url(mime: &str, bytes: &[u8]) -> (u: String)
    ensures
        u@ == "data:"@ + mime@ + ";base64,"@ + base64_standard(bytes@),
{
    let b64 = base64_encode(bytes);
    let mut u = String::from_str("data:");
    u.append(mime);
    u.append(";base64,");
    u.append(b64.as_str());
    u
}

/// The safety number of this account and the friend whose signing key is `friend`
/// (hex), to compare out of band; `BadProfile("bad friend key")` when that is not 32
/// bytes of hex.
pub fn safety_number_with(data: &VaultData, friend: &str) -> (r: Result<String, CoreError>)
    ensures
        !has_identity(*data) ==> (r matches Err(e) && identity_fails(*data, e)),
        has_identity(*data) ==> match hex_key_spec(utf8_bytes(friend@)) {
            Some(theirs) => r matches Ok(s) && utf8_bytes(s@) == safety_number_spec(
                ed25519_public_key(hex_key_spec(utf8_bytes(data.signing_secret@))->0),
                theirs,
            ),
            None => r matches Err(e) && profile_error(e, "bad friend key"@),
        },
{
    let me = match data.identity() {
        Ok(id) => id,
        Err(e) => {
            proof {
                lemma_identity_result(*data, Err(e));
            }
            return Err(e);
        },
    };
    proof {
        lemma_identity_result(*data, Ok(me));
    }
    let mine = me.public().signing_public;
    let theirs = match hex_decode_32(friend) {
        Some(t) => t,
        None => return Err(CoreError::BadProfile(String::from_str("bad friend key"))),
    };
    Ok(safety_number(&mine, &theirs))
}

/// The other members of a group (everyone but this account); none for an unknown
/// group.
pub fn group_members(data: &VaultData, group_id: &str) -> (r: Vec<Friend>)
    ensures
        match group_spec(data.groups@, group_id@) {
            Some(g) => r@ == g.members@,
            None => r@.len() == 0,
        },
{
    match data.group_by_id(group_id) {
        Some(g) => super::vault::copy_friends(&g.members),
        None => Vec::new(),
    }
}

/// The signing key (hex) of an identity.
fn signing_hex_of(me: &Identity) -> (h: String)
    ensures
        utf8_bytes(h@) == hex_encode_spec(ed25519_public_key(me.signing_key@)),
{
    let p = me.public();
    hex_encode(&p.signing_public)
}

/// What sending a 1:1 message does: the friend must be in the roster and the
/// conversation's current key must resolve; then the frame is built at the next
/// outgoing sequence number and the message appended to the history (sealing fails
/// only when the system random source cannot supply a nonce). On any failure nothing
/// changes.
pub open spec fn send_ok(
    old: VaultData,
    friend: Seq<char>,
    body: Seq<char>,
    new: VaultData,
    r: Result<(StoredMessage, MessageFrame), CoreError>,
) -> bool {
    if !has_identity(old) {
        r matches Err(e) && identity_fails(old, e) && new == old
    } else {
        match friend_index(old.friends@, friend) {
            None => r == Err::<(StoredMessage, MessageFrame), CoreError>(CoreError::UnknownSender) && new == old,
            Some(fi) => forall|id: Identity|
                #[trigger] is_identity_of(old, id) ==> {
                    let my = hex_encode_spec(ed25519_public_key(id.signing_key@));
                    let conv = conversation_id_spec(my, utf8_bytes(friend));
                    match r {
                        Err(e) => new == old && (current_direct_ok(old, id, old.friends@[fi], Err(e)) || (
                        reports(e, CryptoError::Rng) && exists|ek: (u64, SymmetricKey)|
                            #[trigger] current_direct_ok(old, id, old.friends@[fi], Ok(ek)))),
                        Ok(mf) => {
                            &&& exists|ek: (u64, SymmetricKey)|
                                #[trigger] current_direct_ok(old, id, old.friends@[fi], Ok(ek)) && is_frame_of(
                                    id.signing_key@,
                                    conv,
                                    ek.0,
                                    ek.1@,
                                    mf.0.seq,
                                    body,
                                    mf.1,
                                )
                            &&& utf8_bytes(mf.0.conversation_id@) == conv
                            &&& utf8_bytes(mf.0.sender@) == my
                            &&& mf.0.body@ == body
                            &&& mf.0.outgoing
                            &&& mf.0.attachment is None
                            &&& mf.0.seq == outgoing_in(old.messages@, mf.0.conversation_id@).len()
                            &&& new.messages@ == old.messages@.push(mf.0)
                            &&& only_messages_changed(old, new)
                        },
                    }
                },
        }
    }
}

/// Seal, sign and store a 1:1 message to a friend (named by signing public key): the
/// stored message and the frame to deliver.
pub fn send_message(data: &mut VaultData, friend: &str, body: &str) -> (r: Result<(StoredMessage, MessageFrame), CoreError>)
    requires
        chacha_plaintext_ok(utf8_bytes(body@).len()),
        utf8_bytes(body@).len() + 28 <= usize::MAX / 2,
    ensures
        send_ok(*old(data), friend@, body@, *final(data), r),
{
    let me = match data.identity() {
        Ok(id) => id,
        Err(e) => {
            proof {
                lemma_identity_result(*data, Err(e));
            }
            return Err(e);
        },
    };
    proof {
        lemma_identity_result(*data, Ok(me));
    }
    let friend_rec = match data.friend_by_signing(friend) {
        Some(f) => copy_friend(f),
        None => return Err(CoreError::UnknownSender),
    };
    let my_signing = signing_hex_of(&me);
    let conv_id = direct_conversation_id(my_signing.as_str(), friend);
    let (epoch, key) = match current_direct_key(data, &me, &friend_rec) {
        Ok(ek) => ek,
        Err(e) => {
            proof {
                assert forall|id: Identity| #[trigger] is_identity_of(*old(data), id) implies current_direct_ok(
                    *old(data),
                    id,
                    friend_rec,
                    Err(e),
                ) by {
                    assert(id.agreement_secret@ == me.agreement_secret@);
                    assert(id.signing_key@ == me.signing_key@);
                }
            }
            return Err(e);
        },
    };
    proof {
        assert forall|id: Identity| #[trigger] is_identity_of(*old(data), id) implies current_direct_ok(
            *old(data),
            id,
            friend_rec,
            Ok((epoch, key)),
        ) by {
            assert(id.agreement_secret@ == me.agreement_secret@);
            assert(id.signing_key@ == me.signing_key@);
        }
    }
    let seq = data.next_seq(conv_id.as_str());
    let frame = match build_frame(&me, conv_id.as_str(), epoch, &key, seq, body) {
        Ok(f) => f,
        Err(e) => return Err(from_crypto(e)),
    };
    let msg = stored_outgoing(conv_id.as_str(), my_signing.as_str(), body, seq, None);
    let out = copy_message(&msg);
    data.add_message(msg);
    proof {
        assert forall|id: Identity| #[trigger] is_identity_of(*old(data), id) implies current_direct_ok(
            *old(data),
            id,
            friend_rec,
            Ok((epoch, key)),
        ) && is_frame_of(
            id.signing_key@,
            conversation_id_spec(hex_encode_spec(ed25519_public_key(id.signing_key@)), utf8_bytes(friend@)),
            epoch,
            key@,
            seq,
            body@,
            frame,
        ) by {
            assert(id.agreement_secret@ == me.agreement_secret@);
            assert(id.signing_key@ == me.signing_key@);
        }
    }
    Ok((out, frame))
}

/// What sending a group message does: the group must be known and its key stored;
/// then the frame is built with the group key at the group's epoch and the next
/// outgoing sequence number, the message appended, and the frame goes to every other
/// member (sealing fails only when the system random source cannot supply a nonce). On
/// any failure nothing changes.
pub open spec fn send_group_ok(
    old: VaultData,
    group_id: Seq<char>,
    body: Seq<char>,
    new: VaultData,
    r: Result<(StoredMessage, MessageFrame, Vec<String>), CoreError>,
) -> bool {
    if !has_identity(old) {
        r matches Err(e) && identity_fails(old, e) && new == old
    } else {
        match group_spec(old.groups@, group_id) {
            None => r == Err::<(StoredMessage, MessageFrame, Vec<String>), CoreError>(CoreError::UnknownSender) && new == old,
            Some(g) => match hex_key_spec(utf8_bytes(g.key@)) {
                None => r matches Err(e) && crypto_failure(e, "no group key"@) && new == old,
                Some(kg) => forall|id: Identity|
                    #[trigger] is_identity_of(old, id) ==> (r matches Err(e) && reports(e, CryptoError::Rng) && new == old) || (r matches Ok(t) && {
                        &&& is_frame_of(id.signing_key@, utf8_bytes(group_id), g.epoch, kg, t.0.seq, body, t.1)
                        &&& t.0.conversation_id@ == group_id
                        &&& utf8_bytes(t.0.sender@) == hex_encode_spec(ed25519_public_key(id.signing_key@))
                        &&& t.0.body@ == body
                        &&& t.0.outgoing
                        &&& t.0.attachment is None
                        &&& t.0.seq == outgoing_in(old.messages@, group_id).len()
                        &&& new.messages@ == old.messages@.push(t.0)
                        &&& only_messages_changed(old, new)
                        &&& t.2@.len() == g.members@.len()
                        &&& forall|i: int| 0 <= i < g.members@.len() ==> #[trigger] t.2@[i] == g.members@[i].signing_public
                    }),
            },
        }
    }
}

/// The signing keys of a roster, in order.
fn signing_keys(members: &Vec<Friend>) -> (r: Vec<String>)
    ensures
        r@.len() == members@.len(),
        forall|i: int| 0 <= i < members@.len() ==> #[trigger] r@[i] == members@[i].signing_public,
{
    let mut out: Vec<String> = Vec::new();
    let mut i: usize = 0;
    while i < members.len()
        invariant
            0 <= i <= members@.len(),
            out@.len() == i,
            forall|k: int| 0 <= k < i ==> #[trigger] out@[k] == members@[k].signing_public,
        decreases members@.len() - i,
    {
        out.push(members[i].signing_public.clone());
        i = i + 1;
    }
    out
}

/// Seal, sign and store a group message: the stored message, the frame, and the
/// members to deliver it to.
pub fn send_group_message(data: &mut VaultData, group_id: &str, body: &str) -> (r: Result<(StoredMessage, MessageFrame, Vec<String>), CoreError>)
    requires
        chacha_plaintext_ok(utf8_bytes(body@).len()),
        utf8_bytes(body@).len() + 28 <= usize::MAX / 2,
    ensures
        send_group_ok(*old(data), group_id@, body@, *final(data), r),
{
    let me = match data.identity() {
        Ok(id) => id,
        Err(e) => {
            proof {
                lemma_identity_result(*data, Err(e));
            }
            return Err(e);
        },
    };
    proof {
        lemma_identity_result(*data, Ok(me));
    }
    let my_signing = signing_hex_of(&me);
    let (epoch, recipients) = match data.group_by_id(group_id) {
        Some(g) => (g.epoch, signing_keys(&g.members)),
        None => return Err(CoreError::UnknownSender),
    };
    let kg = match data.group_key(group_id) {
        Some(k) => k,
        None => return Err(CoreError::Crypto(String::from_str("no group key"))),
    };
    let seq = data.next_seq(group_id);
    let frame = match build_frame(&me, group_id, epoch, &kg, seq, body) {
        Ok(f) => f,
        Err(e) => return Err(from_crypto(e)),
    };
    let msg = stored_outgoing(group_id, my_signing.as_str(), body, seq, None);
    let out = copy_message(&msg);
    data.add_message(msg);
    Ok((out, frame, recipients))
}

/// What rotating the key of a 1:1 does: the friend must be in the roster, the current
/// key must resolve and its epoch must not be the last one; then `new_key` becomes the
/// conversation's key at the next epoch, and is sealed for the friend under the pairwise
/// key (which fails only when the system random source cannot supply a nonce).
pub open spec fn rotate_ok(
    old: VaultData,
    friend: Seq<char>,
    new_key: Seq<u8>,
    new: VaultData,
    r: Result<KeyUpdate, CoreError>,
) -> bool {
    if !has_identity(old) {
        r matches Err(e) && identity_fails(old, e) && new == old
    } else {
        match friend_index(old.friends@, friend) {
            None => r == Err::<KeyUpdate, CoreError>(CoreError::UnknownSender) && new == old,
            Some(fi) => forall|id: Identity|
                #[trigger] is_identity_of(old, id) ==> {
                    let my = hex_encode_spec(ed25519_public_key(id.signing_key@));
                    let conv = conversation_id_spec(my, utf8_bytes(friend));
                    let f = old.friends@[fi];
                    ||| (r matches Err(e) && new == old && current_direct_ok(old, id, f, Err(e)))
                    ||| exists|ek: (u64, SymmetricKey)|
                        #[trigger] current_direct_ok(old, id, f, Ok(ek)) && if ek.0 == u64::MAX {
                            r matches Err(e) && crypto_failure(e, "key epoch exhausted"@) && new == old
                        } else {
                            &&& direct_key_spec(new.direct_keys@, vstd::utf8::decode_utf8(conv)) matches Some(dk)
                                && dk.epoch == ek.0 + 1 && utf8_bytes(dk.key@) == hex_encode_spec(new_key)
                            &&& new.friends == old.friends && new.messages == old.messages && new.groups == old.groups
                            &&& match agreement_key_of(f) {
                                Some(_) => match r {
                                    Ok(ku) => utf8_bytes(ku.conversation_id@) == conv && ku.epoch == ek.0 + 1
                                        && utf8_bytes(ku.originator@) == my && direct_key_sealed(
                                        id.agreement_secret@,
                                        f,
                                        conv,
                                        (ek.0 + 1) as u64,
                                        new_key,
                                        utf8_bytes(ku.sealed_key@),
                                    ),
                                    Err(e) => reports(e, CryptoError::Rng),
                                },
                                None => r matches Err(e) && profile_error(e, "bad agreement key"@),
                            }
                        }
                },
        }
    }
}

/// Rotate the key of a 1:1 to `new_key` at the next epoch: record it, and return the
/// key update to send the friend.
pub fn rotate_direct_with(data: &mut VaultData, friend: &str, new_key: SymmetricKey) -> (r: Result<KeyUpdate, CoreError>)
    ensures
        rotate_ok(*old(data), friend@, new_key@, *final(data), r),
{
    let me = match data.identity() {
        Ok(id) => id,
        Err(e) => {
            proof {
                lemma_identity_result(*data, Err(e));
            }
            return Err(e);
        },
    };
    proof {
        lemma_identity_result(*data, Ok(me));
    }
    let friend_rec = match data.friend_by_signing(friend) {
        Some(f) => copy_friend(f),
        None => return Err(CoreError::UnknownSender),
    };
    let my_signing = signing_hex_of(&me);
    let conv_id = direct_conversation_id(my_signing.as_str(), friend);
    let ek = match current_direct_key(data, &me, &friend_rec) {
        Ok(ek) => ek,
        Err(e) => {
            proof {
                assert forall|id: Identity| #[trigger] is_identity_of(*old(data), id) implies current_direct_ok(
                    *old(data),
                    id,
                    friend_rec,
                    Err(e),
                ) by {
                    assert(id.agreement_secret@ == me.agreement_secret@);
                    assert(id.signing_key@ == me.signing_key@);
                }
            }
            return Err(e);
        },
    };
    let cur_epoch = ek.0;
    proof {
        assert forall|id: Identity| #[trigger] is_identity_of(*old(data), id) implies current_direct_ok(
            *old(data),
            id,
            friend_rec,
            Ok(ek),
        ) by {
            assert(id.agreement_secret@ == me.agreement_secret@);
            assert(id.signing_key@ == me.signing_key@);
        }
    }
    if cur_epoch == u64::MAX {
        return Err(CoreError::Crypto(String::from_str("key epoch exhausted")));
    }
    let new_epoch = cur_epoch + 1;
    data.set_direct_key(conv_id.as_str(), new_epoch, hex_encode(&new_key));
    proof {
        vstd::utf8::encode_utf8_decode_utf8(conv_id@);
    }
    let sealed = match seal_direct_key(&me, &friend_rec, conv_id.as_str(), new_epoch, &new_key) {
        Ok(s) => s,
        Err(e) => return Err(e),
    };
    Ok(KeyUpdate { conversation_id: conv_id, epoch: new_epoch, originator: my_signing, sealed_key: sealed })
}

/// Rotate the key of a 1:1 to a fresh random key at the next epoch.
pub fn rotate_direct(data: &mut VaultData, friend: &str) -> (r: Result<KeyUpdate, CoreError>)
    ensures
        (r matches Err(e) && reports(e, CryptoError::Rng) && *final(data) == *old(data)) || exists|k: Seq<u8>|
            k.len() == 32 && rotate_ok(*old(data), friend@, k, *final(data), r),
{
    let new_key = match generate_group_key() {
        Ok(k) => k,
        Err(e) => return Err(from_crypto(e)),
    };
    rotate_direct_with(data, friend, new_key)
}

/// The members of a group that stay after a removal (all, when none is removed).
pub open spec fn remaining_members(members: Seq<Friend>, remove: Option<Seq<char>>) -> Seq<Friend> {
    members.filter(|f: Friend| remove != Some(f.signing_public@))
}

/// Every friend's agreement key is 32 bytes of hex.
pub open spec fn all_have_keys(recipients: Seq<Friend>) -> bool {
    forall|i: int| 0 <= i < recipients.len() ==> #[trigger] agreement_key_of(recipients[i]) is Some
}

/// `inv` is the invitation of `recipient` to group `group_id`: the roster, the epoch,
/// this account as originator, and the group key sealed for the recipient.
pub open spec fn invite_for(
    inv: (String, GroupInvite),
    recipient: Friend,
    my_secret: Seq<u8>,
    my: Seq<u8>,
    roster: Seq<Friend>,
    group_id: Seq<char>,
    name: Seq<char>,
    epoch: u64,
    kg: Seq<u8>,
) -> bool {
    &&& inv.0 == recipient.signing_public
    &&& inv.1.group_id@ == group_id
    &&& inv.1.name@ == name
    &&& inv.1.epoch == epoch
    &&& inv.1.members@ == roster
    &&& utf8_bytes(inv.1.originator@) == my
    &&& group_key_sealed(my_secret, recipient, utf8_bytes(group_id), epoch, kg, utf8_bytes(inv.1.sealed_key@))
}

/// One invitation per recipient, in order.
pub open spec fn invites_ok(
    invs: Seq<(String, GroupInvite)>,
    recipients: Seq<Friend>,
    my_secret: Seq<u8>,
    my: Seq<u8>,
    roster: Seq<Friend>,
    group_id: Seq<char>,
    name: Seq<char>,
    epoch: u64,
    kg: Seq<u8>,
) -> bool {
    &&& invs.len() == recipients.len()
    &&& forall|i: int|
        0 <= i < recipients.len() ==> invite_for(#[trigger] invs[i], recipients[i], my_secret, my, roster, group_id, name, epoch, kg)
}

/// The invitations of `recipients` to a group, with `roster` as its member list.
fn make_invites(
    me: &Identity,
    my_signing: &String,
    recipients: &Vec<Friend>,
    roster: &Vec<Friend>,
    group_id: &str,
    name: &str,
    epoch: u64,
    kg: &SymmetricKey,
) -> (r: Result<Vec<(String, GroupInvite)>, CoreError>)
    ensures
        match r {
            Ok(invs) => all_have_keys(recipients@) && invites_ok(
                invs@,
                recipients@,
                me.agreement_secret@,
                utf8_bytes(my_signing@),
                roster@,
                group_id@,
                name@,
                epoch,
                kg@,
            ),
            Err(e) => reports(e, CryptoError::Rng) || (!all_have_keys(recipients@) && profile_error(
                e,
                "bad agreement key"@,
            )),
        },
{
    let mut invs: Vec<(String, GroupInvite)> = Vec::new();
    let mut i: usize = 0;
    while i < recipients.len()
        invariant
            0 <= i <= recipients@.len(),
            invs@.len() == i,
            forall|k: int| 0 <= k < i ==> #[trigger] agreement_key_of(recipients@[k]) is Some,
            forall|k: int|
                0 <= k < i ==> invite_for(
                    #[trigger] invs@[k],
                    recipients@[k],
                    me.agreement_secret@,
                    utf8_bytes(my_signing@),
                    roster@,
                    group_id@,
                    name@,
                    epoch,
                    kg@,
                ),
        decreases recipients@.len() - i,
    {
        let recipient = &recipients[i];
        let sealed = match seal_group_key(me, recipient, group_id, epoch, kg) {
            Ok(s) => s,
            Err(e) => return Err(e),
        };
        let invite = GroupInvite {
            group_id: String::from_str(group_id),
            name: String::from_str(name),
            epoch,
            members: copy_friends(roster),
            originator: my_signing.clone(),
            sealed_key: sealed,
        };
        invs.push((recipient.signing_public.clone(), invite));
        i = i + 1;
    }
    Ok(invs)
}

/// The group after a rotation: same id and name, the remaining members, the next
/// epoch and the new key.
pub open spec fn rotated_group(after: Group, before: Group, remaining: Seq<Friend>, kg: Seq<u8>) -> bool {
    &&& after.id == before.id
    &&& after.name == before.name
    &&& after.members@ == remaining
    &&& after.epoch == before.epoch + 1
    &&& utf8_bytes(after.key@) == hex_encode_spec(kg)
}

/// The outcome of sealing a rebuilt group's key for its remaining members: on success
/// one invitation per member with the full roster (this account first), at the next
/// epoch; otherwise an unavailable random source, or a member whose agreement key is not
/// 32 bytes of hex.
pub open spec fn rebuilt_invites(
    old: VaultData,
    id: Identity,
    g: Group,
    rem: Seq<Friend>,
    group_id: Seq<char>,
    kg: Seq<u8>,
    r: Result<Vec<(String, GroupInvite)>, CoreError>,
) -> bool {
    match r {
        Ok(invs) => all_have_keys(rem) && exists|sf: Friend|
            #[trigger] self_friend_ok(old, Ok(sf)) && invites_ok(
                invs@,
                rem,
                id.agreement_secret@,
                hex_encode_spec(ed25519_public_key(id.signing_key@)),
                seq![sf] + rem,
                group_id,
                g.name@,
                (g.epoch + 1) as u64,
                kg,
            ),
        Err(e) => reports(e, CryptoError::Rng) || (!all_have_keys(rem) && profile_error(e, "bad agreement key"@)),
    }
}

/// What rebuilding a group's key does: the group must be known and its epoch not the
/// last one (else `key epoch exhausted` and nothing changes); its members lose
/// `remove` (if given), its epoch moves to the next, its key becomes `kg`; and every
/// remaining member gets an invitation with the full roster (this account first) and
/// `kg` sealed for them. The group is updated even where a member's key then fails to
/// seal.
pub open spec fn rebuild_ok(
    old: VaultData,
    group_id: Seq<char>,
    remove: Option<Seq<char>>,
    kg: Seq<u8>,
    new: VaultData,
    r: Result<Vec<(String, GroupInvite)>, CoreError>,
) -> bool {
    if !has_identity(old) {
        r matches Err(e) && identity_fails(old, e) && new == old
    } else {
        match group_index(old.groups@, group_id) {
            None => r == Err::<Vec<(String, GroupInvite)>, CoreError>(CoreError::UnknownSender) && new == old,
            Some(gi) => if old.groups@[gi].epoch == u64::MAX {
                r matches Err(e) && crypto_failure(e, "key epoch exhausted"@) && new == old
            } else {
                let g = old.groups@[gi];
                let rem = remaining_members(g.members@, remove);
                &&& only_groups_changed(old, new)
                &&& new.groups@.len() == old.groups@.len()
                &&& forall|j: int| 0 <= j < old.groups@.len() && j != gi ==> new.groups@[j] == old.groups@[j]
                &&& rotated_group(new.groups@[gi], g, rem, kg)
                &&& forall|id: Identity| #[trigger] is_identity_of(old, id) ==> rebuilt_invites(old, id, g, rem, group_id, kg, r)
            },
        }
    }
}

/// Rebuild a group's key with `kg` at the next epoch, optionally removing a member, and
/// return the invitations to send, each with its recipient.
pub fn rebuild_group_keys_with(
    data: &mut VaultData,
    group_id: &str,
    remove: Option<&str>,
    kg: SymmetricKey,
) -> (r: Result<Vec<(String, GroupInvite)>, CoreError>)
    ensures
        rebuild_ok(
            *old(data),
            group_id@,
            match remove {
                Some(m) => Some(m@),
                None => None,
            },
            kg@,
            *final(data),
            r,
        ),
{
    let ghost rm = match remove {
        Some(m) => Some(m@),
        None => None::<Seq<char>>,
    };
    let me = match data.identity() {
        Ok(id) => id,
        Err(e) => {
            proof {
                lemma_identity_result(*data, Err(e));
            }
            return Err(e);
        },
    };
    proof {
        lemma_identity_result(*data, Ok(me));
    }
    let my_signing = signing_hex_of(&me);
    let gi = match data.group_position(group_id) {
        Some(i) => i,
        None => return Err(CoreError::UnknownSender),
    };
    proof {
        super::vault::lemma_first_group_unique(data.groups@, group_id@, gi as int);
    }
    if data.groups[gi].epoch == u64::MAX {
        return Err(CoreError::Crypto(String::from_str("key epoch exhausted")));
    }
    let ghost g = data.groups@[gi as int];
    let ghost pred = |f: Friend| rm != Some(f.signing_public@);
    let mut remaining: Vec<Friend> = Vec::new();
    let mut i: usize = 0;
    while i < data.groups[gi].members.len()
        invariant
            gi < data.groups@.len(),
            g == data.groups@[gi as int],
            0 <= i <= g.members@.len(),
            pred == (|f: Friend| rm != Some(f.signing_public@)),
            rm == match remove {
                Some(m) => Some(m@),
                None => None::<Seq<char>>,
            },
            remaining@ == g.members@.take(i as int).filter(pred),
        decreases g.members@.len() - i,
    {
        proof {
            let t = g.members@.take(i + 1);
            assert(t.drop_last() =~= g.members@.take(i as int));
            assert(t.last() == g.members@[i as int]);
            reveal_with_fuel(Seq::filter, 1);
        }
        let m = &data.groups[gi].members[i];
        let keep = match remove {
            Some(x) => !str_eq(m.signing_public.as_str(), x),
            None => true,
        };
        if keep {
            remaining.push(copy_friend(m));
        }
        i = i + 1;
    }
    proof {
        assert(g.members@.take(g.members@.len() as int) =~= g.members@);
    }
    let new_epoch = data.groups[gi].epoch + 1;
    let name = data.groups[gi].name.clone();
    let updated = Group {
        id: data.groups[gi].id.clone(),
        name: data.groups[gi].name.clone(),
        members: copy_friends(&remaining),
        epoch: new_epoch,
        key: hex_encode(&kg),
    };
    data.groups.set(gi, updated);
    let me_friend = match self_as_friend(data) {
        Ok(f) => f,
        Err(e) => {
            proof {
                assert(false);
            }
            return Err(e);
        },
    };
    let mut roster: Vec<Friend> = Vec::new();
    roster.push(me_friend);
    let mut j: usize = 0;
    while j < remaining.len()
        invariant
            0 <= j <= remaining@.len(),
            roster@ == seq![me_friend] + remaining@.take(j as int),
        decreases remaining@.len() - j,
    {
        roster.push(copy_friend(&remaining[j]));
        proof {
            assert(roster@ =~= seq![me_friend] + remaining@.take(j + 1));
        }
        j = j + 1;
    }
    proof {
        assert(remaining@.take(remaining@.len() as int) =~= remaining@);
    }
    let r = make_invites(&me, &my_signing, &remaining, &roster, group_id, name.as_str(), new_epoch, &kg);
    proof {
        assert(self_friend_ok(*old(data), Ok(me_friend)));
        assert forall|id: Identity| #[trigger] is_identity_of(*old(data), id) implies rebuilt_invites(
            *old(data),
            id,
            g,
            remaining@,
            group_id@,
            kg@,
            r,
        ) by {
            assert(id.agreement_secret@ == me.agreement_secret@);
            assert(id.signing_key@ == me.signing_key@);
        }
    }
    r
}

/// What rebuilding a group's key with a freshly drawn key does: the identity's error,
/// `UnknownSender` for an unknown group, `key epoch exhausted` for a group at the last
/// epoch (each changing nothing); otherwise an unavailable random source (changing
/// nothing), or `rebuild_ok` for some 32-byte key.
pub open spec fn rebuild_fresh_ok(
    old: VaultData,
    group_id: Seq<char>,
    remove: Option<Seq<char>>,
    new: VaultData,
    r: Result<Vec<(String, GroupInvite)>, CoreError>,
) -> bool {
    if !has_identity(old) {
        r matches Err(e) && identity_fails(old, e) && new == old
    } else {
        match group_index(old.groups@, group_id) {
            None => r == Err::<Vec<(String, GroupInvite)>, CoreError>(CoreError::UnknownSender) && new == old,
            Some(gi) => if old.groups@[gi].epoch == u64::MAX {
                r matches Err(e) && crypto_failure(e, "key epoch exhausted"@) && new == old
            } else {
                ||| (r matches Err(e) && reports(e, CryptoError::Rng) && new == old)
                ||| exists|kg: Seq<u8>| kg.len() == 32 && rebuild_ok(old, group_id, remove, kg, new, r)
            },
        }
    }
}

/// Rebuild a group's key with a fresh random key (rotation, or removal of `remove`).
/// The identity, the group and its epoch are checked before the key is drawn, so their
/// errors come whatever the random source does; once they pass, the only other outcome
/// besides `rebuild_ok` is an unavailable random source, which changes nothing.
pub fn rebuild_group_keys(data: &mut VaultData, group_id: &str, remove: Option<&str>) -> (r: Result<Vec<(String, GroupInvite)>, CoreError>)
    ensures
        rebuild_fresh_ok(
            *old(data),
            group_id@,
            match remove {
                Some(m) => Some(m@),
                None => None,
            },
            *final(data),
            r,
        ),
{
    match data.identity() {
        Ok(me) => {
            proof {
                lemma_identity_result(*data, Ok(me));
            }
        },
        Err(e) => {
            proof {
                lemma_identity_result(*data, Err(e));
            }
            return Err(e);
        },
    }
    let gi = match data.group_position(group_id) {
        Some(i) => i,
        None => return Err(CoreError::UnknownSender),
    };
    proof {
        super::vault::lemma_first_group_unique(data.groups@, group_id@, gi as int);
    }
    if data.groups[gi].epoch == u64::MAX {
        return Err(CoreError::Crypto(String::from_str("key epoch exhausted")));
    }
    let kg = match generate_group_key() {
        Ok(k) => k,
        Err(e) => return Err(from_crypto(e)),
    };
    rebuild_group_keys_with(data, group_id, remove, kg)
}

/// The roster entries of `members` (signing keys, hex), when each is a friend.
pub open spec fn roster_of(friends: Seq<Friend>, members: Seq<String>) -> Option<Seq<Friend>> {
    if forall|k: int| 0 <= k < members.len() ==> #[trigger] friend_index(friends, members[k]@) is Some {
        Some(Seq::new(members.len(), |k: int| friends[friend_index(friends, members[k]@)->0]))
    } else {
        None
    }
}

/// The outcome of sealing a new group's key for its members: on success the member
/// count (this account included) and one invitation per member with the full roster
/// (this account first), at epoch 0; otherwise an unavailable random source, or a member
/// whose agreement key is not 32 bytes of hex.
pub open spec fn created_invites(
    old: VaultData,
    id: Identity,
    others: Seq<Friend>,
    name: Seq<char>,
    group_id: Seq<char>,
    kg: Seq<u8>,
    r: Result<(usize, Vec<(String, GroupInvite)>), CoreError>,
) -> bool {
    match r {
        Ok(t) => all_have_keys(others) && t.0 == others.len() + 1 && exists|sf: Friend|
            #[trigger] self_friend_ok(old, Ok(sf)) && invites_ok(
                t.1@,
                others,
                id.agreement_secret@,
                hex_encode_spec(ed25519_public_key(id.signing_key@)),
                seq![sf] + others,
                group_id,
                name,
                0,
                kg,
            ),
        Err(e) => reports(e, CryptoError::Rng) || (!all_have_keys(others) && profile_error(e, "bad agreement key"@)),
    }
}

/// What creating a group does: every selected member must be a friend; then the group
/// (id `group_id`, epoch 0, key `kg`, the selected friends as members) is added, and
/// each member gets an invitation with the full roster (this account first) and `kg`
/// sealed for them. The group is added even where a member's key then fails to seal.
pub open spec fn create_group_ok(
    old: VaultData,
    name: Seq<char>,
    members: Seq<String>,
    kg: Seq<u8>,
    group_id: Seq<char>,
    new: VaultData,
    r: Result<(usize, Vec<(String, GroupInvite)>), CoreError>,
) -> bool {
    if !has_identity(old) {
        r matches Err(e) && identity_fails(old, e) && new == old
    } else {
        match roster_of(old.friends@, members) {
            None => r == Err::<(usize, Vec<(String, GroupInvite)>), CoreError>(CoreError::UnknownSender) && new == old,
            Some(others) => {
                &&& only_groups_changed(old, new)
                &&& new.groups@.len() == old.groups@.len() + 1
                &&& new.groups@.take(old.groups@.len() as int) == old.groups@
                &&& new.groups@.last().id@ == group_id
                &&& new.groups@.last().name@ == name
                &&& new.groups@.last().members@ == others
                &&& new.groups@.last().epoch == 0
                &&& utf8_bytes(new.groups@.last().key@) == hex_encode_spec(kg)
                &&& forall|id: Identity| #[trigger] is_identity_of(old, id) ==> created_invites(old, id, others, name, group_id, kg, r)
            },
        }
    }
}

/// Create a group of the given friends with key `kg` and id `group_id`: the number of
/// members (this account included) and the invitations to send.
pub fn create_group_with(
    data: &mut VaultData,
    name: &str,
    members: &Vec<String>,
    kg: SymmetricKey,
    group_id: String,
) -> (r: Result<(usize, Vec<(String, GroupInvite)>), CoreError>)
    requires
        old(data).friends@.len() < usize::MAX,
        members@.len() < usize::MAX,
    ensures
        create_group_ok(*old(data), name@, members@, kg@, group_id@, *final(data), r),
{
    let me = match data.identity() {
        Ok(id) => id,
        Err(e) => {
            proof {
                lemma_identity_result(*data, Err(e));
            }
            return Err(e);
        },
    };
    proof {
        lemma_identity_result(*data, Ok(me));
    }
    let my_signing = signing_hex_of(&me);
    let mut others: Vec<Friend> = Vec::new();
    let mut i: usize = 0;
    while i < members.len()
        invariant
            *data == *old(data),
            has_identity(*data),
            0 <= i <= members@.len(),
            others@.len() == i,
            forall|k: int| 0 <= k < i ==> #[trigger] friend_index(data.friends@, members@[k]@) is Some,
            forall|k: int|
                0 <= k < i ==> #[trigger] others@[k] == data.friends@[friend_index(data.friends@, members@[k]@)->0],
        decreases members@.len() - i,
    {
        match data.friend_by_signing(members[i].as_str()) {
            Some(f) => {
                others.push(copy_friend(f));
            },
            None => {
                assert(friend_index(data.friends@, members@[i as int]@) is None);
                assert(roster_of(data.friends@, members@) is None);
                return Err(CoreError::UnknownSender);
            },
        }
        i = i + 1;
    }
    proof {
        assert(others@ =~= roster_of(data.friends@, members@)->0);
    }
    let me_friend = match self_as_friend(data) {
        Ok(f) => f,
        Err(e) => {
            proof {
                assert(false);
            }
            return Err(e);
        },
    };
    let mut roster: Vec<Friend> = Vec::new();
    roster.push(me_friend);
    let mut j: usize = 0;
    while j < others.len()
        invariant
            0 <= j <= others@.len(),
            roster@ == seq![me_friend] + others@.take(j as int),
        decreases others@.len() - j,
    {
        roster.push(copy_friend(&others[j]));
        proof {
            assert(roster@ =~= seq![me_friend] + others@.take(j + 1));
        }
        j = j + 1;
    }
    proof {
        assert(others@.take(others@.len() as int) =~= others@);
    }
    let ghost old_groups = data.groups@;
    data.groups.push(
        Group {
            id: group_id.clone(),
            name: String::from_str(name),
            members: copy_friends(&others),
            epoch: 0,
            key: hex_encode(&kg),
        },
    );
    proof {
        assert(data.groups@.take(old_groups.len() as int) =~= old_groups);
    }
    let count = others.len() + 1;
    let r = match make_invites(&me, &my_signing, &others, &roster, group_id.as_str(), name, 0, &kg) {
        Ok(invs) => Ok((count, invs)),
        Err(e) => Err(e),
    };
    proof {
        assert(self_friend_ok(*old(data), Ok(me_friend)));
        assert forall|id: Identity| #[trigger] is_identity_of(*old(data), id) implies created_invites(
            *old(data),
            id,
            others@,
            name@,
            group_id@,
            kg@,
            r,
        ) by {
            assert(id.agreement_secret@ == me.agreement_secret@);
            assert(id.signing_key@ == me.signing_key@);
        }
    }
    r
}

/// What creating a group with a freshly drawn key and id does: the identity's error, or
/// `UnknownSender` when a member is not a friend (each changing nothing); otherwise an
/// unavailable random source (changing nothing), or `create_group_ok` for some 32-byte
/// key, with the id returned.
pub open spec fn create_fresh_ok(
    old: VaultData,
    name: Seq<char>,
    members: Seq<String>,
    new: VaultData,
    r: Result<(String, usize, Vec<(String, GroupInvite)>), CoreError>,
) -> bool {
    if !has_identity(old) {
        r matches Err(e) && identity_fails(old, e) && new == old
    } else if roster_of(old.friends@, members) is None {
        r == Err::<(String, usize, Vec<(String, GroupInvite)>), CoreError>(CoreError::UnknownSender) && new == old
    } else {
        match r {
            Ok(t) => exists|kg: Seq<u8>|
                kg.len() == 32 && create_group_ok(old, name, members, kg, t.0@, new, Ok((t.1, t.2))),
            Err(e) => (reports(e, CryptoError::Rng) && new == old) || exists|kg: Seq<u8>, gid: Seq<char>|
                kg.len() == 32 && create_group_ok(old, name, members, kg, gid, new, Err(e)),
        }
    }
}

/// Create a group with a fresh random key and id. The identity and every member are
/// checked before anything is drawn, so their errors come whatever the random source
/// does; once they pass, the only other outcome besides `create_group_ok` is an
/// unavailable random source, which changes nothing.
pub fn create_group(data: &mut VaultData, name: &str, members: &Vec<String>) -> (r: Result<(String, usize, Vec<(String, GroupInvite)>), CoreError>)
    requires
        old(data).friends@.len() < usize::MAX,
        members@.len() < usize::MAX,
    ensures
        create_fresh_ok(*old(data), name@, members@, *final(data), r),
{
    match data.identity() {
        Ok(me) => {
            proof {
                lemma_identity_result(*data, Ok(me));
            }
        },
        Err(e) => {
            proof {
                lemma_identity_result(*data, Err(e));
            }
            return Err(e);
        },
    }
    let mut i: usize = 0;
    while i < members.len()
        invariant
            *data == *old(data),
            has_identity(*data),
            0 <= i <= members@.len(),
            forall|k: int| 0 <= k < i ==> #[trigger] friend_index(data.friends@, members@[k]@) is Some,
        decreases members@.len() - i,
    {
        if data.friend_by_signing(members[i].as_str()).is_none() {
            proof {
                assert(friend_index(data.friends@, members@[i as int]@) is None);
                assert(roster_of(data.friends@, members@) is None);
            }
            return Err(CoreError::UnknownSender);
        }
        i = i + 1;
    }
    proof {
        assert(roster_of(data.friends@, members@) is Some);
    }
    let kg = match generate_group_key() {
        Ok(k) => k,
        Err(e) => return Err(from_crypto(e)),
    };
    let group_id = match new_group_id() {
        Ok(g) => g,
        Err(e) => return Err(e),
    };
    let gid = group_id.clone();
    match create_group_with(data, name, members, kg, group_id) {
        Ok((count, invs)) => Ok((gid, count, invs)),
        Err(e) => Err(e),
    }
}

/// Whether some friend has this signing key.
pub open spec fn is_friend(friends: Seq<Friend>, signing: Seq<char>) -> bool {
    exists|i: int| 0 <= i < friends.len() && (#[trigger] friends[i]).signing_public@ == signing
}

/// Add an imported friend to the roster; `DuplicateFriend` if one with the same signing
/// key is already there.
pub fn add_friend(data: &mut VaultData, friend: Friend) -> (r: Result<(), CoreError>)
    ensures
        is_friend(old(data).friends@, friend.signing_public@) ==> r == Err::<(), CoreError>(CoreError::DuplicateFriend)
            && *final(data) == *old(data),
        !is_friend(old(data).friends@, friend.signing_public@) ==> r is Ok && final(data).friends@ == old(
            data,
        ).friends@.push(friend) && final(data).messages == old(data).messages && final(data).groups == old(
            data,
        ).groups && final(data).direct_keys == old(data).direct_keys && final(data).display_name == old(
            data,
        ).display_name && final(data).agreement_secret == old(data).agreement_secret
            && final(data).signing_secret == old(data).signing_secret && final(data).node_addr == old(
            data,
        ).node_addr,
{
    match position_of_friend(&data.friends, friend.signing_public.as_str()) {
        Some(i) => {
            proof {
                assert(data.friends@[i as int].signing_public@ == friend.signing_public@);
            }
            return Err(CoreError::DuplicateFriend);
        },
        None => {},
    }
    data.friends.push(friend);
    Ok(())
}

/// Remove a friend (by signing key) from the roster; history stays.
pub fn remove_friend(data: &mut VaultData, signing: &str)
    ensures
        final(data).friends@ == old(data).friends@.filter(|f: Friend| f.signing_public@ != signing@),
        final(data).messages == old(data).messages,
        final(data).groups == old(data).groups,
        final(data).direct_keys == old(data).direct_keys,
        final(data).display_name == old(data).display_name,
        final(data).agreement_secret == old(data).agreement_secret,
        final(data).signing_secret == old(data).signing_secret,
        final(data).node_addr == old(data).node_addr,
{
    let ghost pred = |f: Friend| f.signing_public@ != signing@;
    let mut kept: Vec<Friend> = Vec::new();
    let mut i: usize = 0;
    while i < data.friends.len()
        invariant
            0 <= i <= data.friends@.len(),
            pred == (|f: Friend| f.signing_public@ != signing@),
            kept@ == data.friends@.take(i as int).filter(pred),
        decreases data.friends@.len() - i,
    {
        proof {
            let t = data.friends@.take(i + 1);
            assert(t.drop_last() =~= data.friends@.take(i as int));
            assert(t.last() == data.friends@[i as int]);
            reveal_with_fuel(Seq::filter, 1);
        }
        if !str_eq(data.friends[i].signing_public.as_str(), signing) {
            kept.push(copy_friend(&data.friends[i]));
        }
        i = i + 1;
    }
    proof {
        assert(data.friends@.take(data.friends@.len() as int) =~= data.friends@);
    }
    data.friends = kept;
}

/// `i` is the first friend whose 1:1 with the account of signing key `my` (hex) is
/// conversation `conv`.
pub open spec fn first_conv_friend(friends: Seq<Friend>, my: Seq<u8>, conv: Seq<u8>, i: int) -> bool {
    &&& 0 <= i < friends.len()
    &&& conversation_id_spec(my, utf8_bytes(friends[i].signing_public@)) == conv
    &&& forall|j: int|
        0 <= j < i ==> conversation_id_spec(my, utf8_bytes((#[trigger] friends[j]).signing_public@)) != conv
}

/// The friend whose 1:1 is conversation `conv`, if any.
pub open spec fn conv_friend_index(friends: Seq<Friend>, my: Seq<u8>, conv: Seq<u8>) -> Option<int> {
    if exists|i: int| first_conv_friend(friends, my, conv, i) {
        Some(choose|i: int| first_conv_friend(friends, my, conv, i))
    } else {
        None
    }
}

proof fn lemma_first_conv_friend_unique(friends: Seq<Friend>, my: Seq<u8>, conv: Seq<u8>, i: int)
    requires
        first_conv_friend(friends, my, conv, i),
    ensures
        conv_friend_index(friends, my, conv) == Some(i),
{
    let k = choose|k: int| first_conv_friend(friends, my, conv, k);
    if k < i {
        assert(conversation_id_spec(my, utf8_bytes(friends[k].signing_public@)) != conv);
    } else if k > i {
        assert(conversation_id_spec(my, utf8_bytes(friends[i].signing_public@)) != conv);
    }
}

/// The key, epoch and recipients for sending into a conversation: for a known group,
/// its key (`Crypto("no group key")` if not stored), epoch and members; otherwise the 1:1
/// whose id this is, with its current key and epoch and the friend as recipient.
pub open spec fn resolve_ok(
    data: VaultData,
    conversation_id: Seq<char>,
    my: Seq<u8>,
    r: Result<(SymmetricKey, u64, Vec<String>), CoreError>,
) -> bool {
    match group_spec(data.groups@, conversation_id) {
        Some(g) => match hex_key_spec(utf8_bytes(g.key@)) {
            Some(k) => r matches Ok(t) && t.0@ == k && t.1 == g.epoch && t.2@.len() == g.members@.len() && (forall|i: int|
                0 <= i < g.members@.len() ==> #[trigger] t.2@[i] == g.members@[i].signing_public),
            None => r matches Err(e) && crypto_failure(e, "no group key"@),
        },
        None => if !has_identity(data) {
            r matches Err(e) && identity_fails(data, e)
        } else {
            match conv_friend_index(data.friends@, my, utf8_bytes(conversation_id)) {
                None => r == Err::<(SymmetricKey, u64, Vec<String>), CoreError>(CoreError::UnknownSender),
                Some(fi) => forall|id: Identity|
                    #[trigger] is_identity_of(data, id) ==> match r {
                        Err(e) => current_direct_ok(data, id, data.friends@[fi], Err(e)),
                        Ok(t) => current_direct_ok(data, id, data.friends@[fi], Ok((t.1, t.0))) && t.2@
                            == seq![data.friends@[fi].signing_public],
                    },
            }
        },
    }
}

/// Resolve a conversation id to its key, epoch and recipients, for sending (groups and
/// 1:1s alike).
pub fn resolve_send_ctx(data: &VaultData, conversation_id: &str, my_signing: &str) -> (r: Result<(SymmetricKey, u64, Vec<String>), CoreError>)
    ensures
        resolve_ok(*data, conversation_id@, utf8_bytes(my_signing@), r),
{
    reveal(resolve_ok);
    match data.group_by_id(conversation_id) {
        Some(g) => {
            let key = match data.group_key(conversation_id) {
                Some(k) => k,
                None => return Err(CoreError::Crypto(String::from_str("no group key"))),
            };
            return Ok((key, g.epoch, signing_keys(&g.members)));
        },
        None => {},
    }
    let me = match data.identity() {
        Ok(id) => id,
        Err(e) => {
            proof {
                lemma_identity_result(*data, Err(e));
            }
            return Err(e);
        },
    };
    proof {
        lemma_identity_result(*data, Ok(me));
    }
    let ghost my = utf8_bytes(my_signing@);
    let ghost conv = utf8_bytes(conversation_id@);
    let mut i: usize = 0;
    while i < data.friends.len()
        invariant
            0 <= i <= data.friends@.len(),
            is_identity_of(*data, me),
            group_spec(data.groups@, conversation_id@) is None,
            my == utf8_bytes(my_signing@),
            conv == utf8_bytes(conversation_id@),
            forall|j: int|
                0 <= j < i ==> conversation_id_spec(my, utf8_bytes((#[trigger] data.friends@[j]).signing_public@)) != conv,
        decreases data.friends@.len() - i,
    {
        let c = direct_conversation_id(my_signing, data.friends[i].signing_public.as_str());
        if str_eq(c.as_str(), conversation_id) {
            proof {
                crate::text::lemma_utf8_injective(c@, conversation_id@);
                assert(first_conv_friend(data.friends@, my, conv, i as int));
                lemma_first_conv_friend_unique(data.friends@, my, conv, i as int);
            }
            let friend = &data.friends[i];
            let r = match current_direct_key(data, &me, friend) {
                Ok(ek) => {
                    let mut recipients: Vec<String> = Vec::new();
                    recipients.push(friend.signing_public.clone());
                    proof {
                        assert(recipients@ =~= seq![friend.signing_public]);
                    }
                    Ok((ek.1, ek.0, recipients))
                },
                Err(e) => Err(e),
            };
            proof {
                assert forall|id: Identity| #[trigger] is_identity_of(*data, id) implies match r {
                    Err(e) => current_direct_ok(*data, id, data.friends@[i as int], Err(e)),
                    Ok(t) => current_direct_ok(*data, id, data.friends@[i as int], Ok((t.1, t.0))) && t.2@
                        == seq![data.friends@[i as int].signing_public],
                } by {
                    assert(id.agreement_secret@ == me.agreement_secret@);
                    assert(id.signing_key@ == me.signing_key@);
                }
            }
            return r;
        } else {
            proof {
                if conversation_id_spec(my, utf8_bytes(data.friends@[i as int].signing_public@)) == conv {
                    crate::text::lemma_utf8_injective(c@, conversation_id@);
                }
            }
        }
        i = i + 1;
    }
    Err(CoreError::UnknownSender)
}

/// What preparing an attachment for sending does: a file over the size cap is refused
/// (`file exceeds the 1 GB limit`) before anything else; then the conversation's key
/// and recipients must resolve; the outgoing message, carrying the attachment's id,
/// name, MIME type and size, is appended to the history at the next sequence number.

/// `meta` carries the signing key's public half as its sender and that key's signature
/// over its signing bytes.
pub open spec fn meta_signed(meta: AttachmentMeta, signing_key: Seq<u8>) -> bool {
    &&& utf8_bytes(meta.sender@) == hex_encode_spec(ed25519_public_key(signing_key))
    &&& utf8_bytes(meta.signature@) == hex_encode_spec(ed25519_signature(signing_key, meta_signing_spec(meta)))
}

/// The signed header of an attachment sent by `me`.
pub fn sign_attachment_meta(
    me: &Identity,
    att_id: &str,
    conversation_id: &str,
    epoch: u64,
    seq: u64,
    filename: &str,
    mime: &str,
    size: u64,
    chunks: u32,
) -> (m: AttachmentMeta)
    ensures
        m.att_id@ == att_id@,
        m.conversation_id@ == conversation_id@,
        m.epoch == epoch,
        m.seq == seq,
        m.filename@ == filename@,
        m.mime@ == mime@,
        m.size == size,
        m.chunks == chunks,
        meta_signed(m, me.signing_key@),
{
    let sender = signing_hex_of(me);
    let mut m = AttachmentMeta {
        att_id: String::from_str(att_id),
        conversation_id: String::from_str(conversation_id),
        epoch,
        sender,
        seq,
        filename: String::from_str(filename),
        mime: String::from_str(mime),
        size,
        chunks,
        signature: String::new(),
    };
    let bytes = m.signing_bytes();
    let sig = sign(&me.signing_key, bytes.as_slice());
    m.signature = hex_encode(&sig);
    m
}

/// The result is the message, the key and epoch, the recipients and the chunk count.
pub open spec fn prepare_ok(
    old: VaultData,
    conversation_id: Seq<char>,
    filename: Seq<char>,
    size: u64,
    att_id: Seq<char>,
    new: VaultData,
    r: Result<(StoredMessage, SymmetricKey, u64, Vec<String>, u32, AttachmentMeta), CoreError>,
) -> bool {
    if size > super::attachment::MAX_ATTACHMENT {
        r matches Err(e) && super::storage_error(e, "file exceeds the 1 GB limit"@) && new == old
    } else if !has_identity(old) {
        r matches Err(e) && identity_fails(old, e) && new == old
    } else {
        match r {
            Err(e) => new == old && resolve_ok(old, conversation_id, my_signing_hex(old), Err(e)),
            Ok(t) => {
                &&& resolve_ok(old, conversation_id, my_signing_hex(old), Ok((t.1, t.2, t.3)))
                &&& t.4 == (super::attachment::chunk_count_spec(size as nat) as u32)
                &&& t.0.conversation_id@ == conversation_id
                &&& utf8_bytes(t.0.sender@) == my_signing_hex(old)
                &&& t.0.body@ == Seq::<char>::empty()
                &&& t.0.outgoing
                &&& t.0.seq == outgoing_in(old.messages@, conversation_id).len()
                &&& t.0.attachment matches Some(a) && a.id@ == att_id && a.filename@ == filename && a.size == size
                    && a.mime@ == super::attachment::mime_of(
                    super::attachment::ascii_lower(super::attachment::after_last_dot(utf8_bytes(filename))),
                )
                &&& new.messages@ == old.messages@.push(t.0)
                &&& only_messages_changed(old, new)
                &&& t.5.att_id@ == att_id
                &&& t.5.conversation_id@ == conversation_id
                &&& t.5.epoch == t.2
                &&& t.5.seq == t.0.seq
                &&& t.5.filename@ == filename
                &&& t.0.attachment matches Some(a) && t.5.mime@ == a.mime@
                &&& t.5.size == size
                &&& t.5.chunks == t.4
                &&& t.5.sender@ == t.0.sender@
                &&& forall|id: Identity| #[trigger] is_identity_of(old, id) ==> meta_signed(t.5, id.signing_key@)
            },
        }
    }
}

/// Prepare an attachment for sending: check its size, record the outgoing message, and
/// resolve what its chunks are sealed with and sent to.
#[verifier::spinoff_prover]
#[verifier::rlimit(50)]
pub fn prepare_attachment(
    data: &mut VaultData,
    conversation_id: &str,
    filename: &str,
    size: u64,
    att_id: &str,
) -> (r: Result<(StoredMessage, SymmetricKey, u64, Vec<String>, u32, AttachmentMeta), CoreError>)
    ensures
        prepare_ok(*old(data), conversation_id@, filename@, size, att_id@, *final(data), r),
{
    if size > super::attachment::MAX_ATTACHMENT {
        return Err(CoreError::Storage(String::from_str("file exceeds the 1 GB limit")));
    }
    let mime = super::attachment::guess_mime(filename);
    let chunks = super::attachment::chunk_count(size);
    let me = match data.identity() {
        Ok(id) => id,
        Err(e) => {
            proof {
                lemma_identity_result(*data, Err(e));
            }
            return Err(e);
        },
    };
    proof {
        lemma_identity_result(*data, Ok(me));
    }
    let my_signing = signing_hex_of(&me);
    assert(utf8_bytes(my_signing@) == my_signing_hex(*data));
    let (key, epoch, recipients) = match resolve_send_ctx(data, conversation_id, my_signing.as_str()) {
        Ok(t) => t,
        Err(e) => return Err(e),
    };
    let seq = data.next_seq(conversation_id);
    let meta = sign_attachment_meta(&me, att_id, conversation_id, epoch, seq, filename, mime.as_str(), size, chunks);
    let info = AttachmentInfo {
        id: String::from_str(att_id),
        filename: String::from_str(filename),
        mime,
        size,
    };
    let msg = stored_outgoing(conversation_id, my_signing.as_str(), "", seq, Some(info));
    proof {
        reveal_strlit("");
        assert(""@ =~= Seq::<char>::empty());
    }
    let out = copy_message(&msg);
    data.add_message(msg);
    proof {
        assert forall|id: Identity| #[trigger] is_identity_of(*old(data), id) implies meta_signed(meta, id.signing_key@) by {
            assert(id.signing_key@ == me.signing_key@);
        }
        crate::text::lemma_utf8_injective(meta.sender@, my_signing@);
    }
    Ok((out, key, epoch, recipients, chunks, meta))
}

} // verus!
