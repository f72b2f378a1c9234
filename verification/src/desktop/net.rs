//! The receive side: what each inbound packet does to the unlocked vault. A chat
//! message is deduplicated, its key resolved and its frame opened, then stored; a group
//! invitation installs or refreshes a group, never moving it to an older epoch; a
//! rotated 1:1 key from a friend is opened and stored. Notifying the user interface
//! and persisting the vault happen outside.

use vstd::prelude::*;

use super::conversation::{direct_key_for_epoch, epoch_key_ok, open_direct_key, open_direct_ok};
use super::group::{open_group_key, open_group_ok};
use super::message::{open_frame, open_frame_ok};
use super::packet::{meta_signing_spec, AttachmentChunk, AttachmentMeta, GroupInvite, KeyUpdate, Packet};
use super::vault::{
    Friend, copy_friend, copy_message, direct_key_spec, friend_index, group_index, group_spec, has_identity,
    has_incoming_spec, identity_fails, is_identity_of, lemma_group_push_new_id, lemma_group_update_same_id,
    lemma_identity_result, position_of_friend, AttachmentInfo, Group, StoredMessage, VaultData,
};
use super::attachment::{Reassembler, MAX_ATTACHMENT};
use super::{crypto_failure, from_crypto, profile_error, reports, storage_error, CoreError};
use crate::clock::now_millis;
use crate::crypto::keys::Identity;
use crate::crypto::primitives::ed25519_public_key;
use crate::crypto::SymmetricKey;
use crate::crypto::sign::{verify_raw, verify_raw_spec};
use crate::hexcode::{hex_decode, hex_decode_32, hex_decode_64, hex_decode_spec, hex_encode, hex_encode_spec, hex_key_spec, hex_sig_spec};
use crate::protocol::MessageFrame;
use crate::text::{str_eq, utf8_bytes};

verus! {

/// Whether `sender` is a member of group `g`.
pub open spec fn is_member(g: Group, sender: Seq<char>) -> bool {
    exists|i: int| 0 <= i < g.members@.len() && (#[trigger] g.members@[i]).signing_public@ == sender
}

/// Whether `sender` is a member of `g`.
fn member_of(g: &Group, sender: &str) -> (r: bool)
    ensures
        r == is_member(*g, sender@),
{
    let mut i: usize = 0;
    while i < g.members.len()
        invariant
            0 <= i <= g.members@.len(),
            forall|k: int| 0 <= k < i ==> (#[trigger] g.members@[k]).signing_public@ != sender@,
        decreases g.members@.len() - i,
    {
        if str_eq(g.members[i].signing_public.as_str(), sender) {
            proof {
                crate::text::lemma_utf8_injective(g.members@[i as int].signing_public@, sender@);
            }
            return true;
        }
        i = i + 1;
    }
    false
}

/// The key that opens a message of `sender` in a conversation: the group key for a
/// known group (the sender must be a member), else the 1:1 key of the epoch (the
/// sender must be a friend).
pub open spec fn conv_key_ok(
    data: VaultData,
    conversation_id: Seq<char>,
    sender: Seq<char>,
    epoch: u64,
    r: Result<SymmetricKey, CoreError>,
) -> bool {
    if !has_identity(data) {
        r matches Err(e) && identity_fails(data, e)
    } else {
        match group_spec(data.groups@, conversation_id) {
            Some(g) => if !is_member(g, sender) {
                r == Err::<SymmetricKey, CoreError>(CoreError::UnknownSender)
            } else {
                match hex_key_spec(utf8_bytes(g.key@)) {
                    Some(k) => r matches Ok(a) && a@ == k,
                    None => r matches Err(e) && crypto_failure(e, "no group key"@),
                }
            },
            None => match friend_index(data.friends@, sender) {
                None => r == Err::<SymmetricKey, CoreError>(CoreError::UnknownSender),
                Some(i) => forall|id: Identity|
                    #[trigger] is_identity_of(data, id) ==> epoch_key_ok(data, id, data.friends@[i], epoch, r),
            },
        }
    }
}

/// Resolve the key to open a message or attachment in a conversation.
pub fn conv_key_for(data: &VaultData, conversation_id: &str, sender: &str, epoch: u64) -> (r: Result<SymmetricKey, CoreError>)
    ensures
        conv_key_ok(*data, conversation_id@, sender@, epoch, r),
{
    let me = match data.identity() {
        Ok(id) => id,
        Err(e) => {
            proof {
                lemma_identity_result(*data, Err(e));
            }
            return Err(e);
        },
    };
    proof {
        lemma_identity_result(*data, Ok(me));
    }
    match data.group_by_id(conversation_id) {
        Some(g) => {
            if !member_of(g, sender) {
                return Err(CoreError::UnknownSender);
            }
            match data.group_key(conversation_id) {
                Some(k) => Ok(k),
                None => Err(CoreError::Crypto(String::from_str("no group key"))),
            }
        },
        None => {
            let friend = match data.friend_by_signing(sender) {
                Some(f) => f,
                None => return Err(CoreError::UnknownSender),
            };
            let r = direct_key_for_epoch(data, &me, friend, epoch);
            proof {
                assert forall|id: Identity| #[trigger] is_identity_of(*data, id) implies epoch_key_ok(
                    *data,
                    id,
                    *friend,
                    epoch,
                    r,
                ) by {
                    assert(id.agreement_secret@ == me.agreement_secret@);
                    assert(id.signing_key@ == me.signing_key@);
                }
            }
            r
        },
    }
}

/// Transfer progress of an attachment (sent or received), for the user interface.
#[derive(Debug, Clone, PartialEq, Eq)]
pub struct AttachmentProgress {
    pub att_id: String,
    pub conversation_id: String,
    pub filename: String,
    pub size: u64,
    pub received: u32,
    pub total: u32,
    pub outgoing: bool,
}

/// The progress of an attachment of `total` chunks after `received` of them.
pub fn progress_of(
    info: &AttachmentInfo,
    conversation_id: &str,
    total: u32,
    received: u32,
    outgoing: bool,
) -> (p: AttachmentProgress)
    ensures
        p.att_id == info.id,
        p.conversation_id@ == conversation_id@,
        p.filename == info.filename,
        p.size == info.size,
        p.received == received,
        p.total == total,
        p.outgoing == outgoing,
{
    AttachmentProgress {
        att_id: info.id.clone(),
        conversation_id: String::from_str(conversation_id),
        filename: info.filename.clone(),
        size: info.size,
        received,
        total,
        outgoing,
    }
}

/// What an inbound packet produced, for the user interface to be told about.
#[derive(Debug, Clone, PartialEq, Eq)]
pub enum Inbound {
    Message(StoredMessage),
    GroupUpdated(String),
    /// An attachment's header, for the holder of the reassemblies to accept.
    AttachmentHeader(AttachmentMeta),
    /// An attachment's chunk, for the reassembly of its attachment.
    AttachmentChunk(AttachmentChunk),
    Nothing,
}

/// Everything but the history is as it was.
pub open spec fn only_messages_changed(a: VaultData, b: VaultData) -> bool {
    &&& b.friends == a.friends
    &&& b.groups == a.groups
    &&& b.direct_keys == a.direct_keys
    &&& b.display_name == a.display_name
    &&& b.agreement_secret == a.agreement_secret
    &&& b.signing_secret == a.signing_secret
    &&& b.node_addr == a.node_addr
}

/// Everything but the groups is as it was.
pub open spec fn only_groups_changed(a: VaultData, b: VaultData) -> bool {
    &&& b.friends == a.friends
    &&& b.messages == a.messages
    &&& b.direct_keys == a.direct_keys
    &&& b.display_name == a.display_name
    &&& b.agreement_secret == a.agreement_secret
    &&& b.signing_secret == a.signing_secret
    &&& b.node_addr == a.node_addr
}

/// Everything but the rotated keys is as it was.
pub open spec fn only_keys_changed(a: VaultData, b: VaultData) -> bool {
    &&& b.friends == a.friends
    &&& b.messages == a.messages
    &&& b.groups == a.groups
    &&& b.display_name == a.display_name
    &&& b.agreement_secret == a.agreement_secret
    &&& b.signing_secret == a.signing_secret
    &&& b.node_addr == a.node_addr
}

/// What receiving a chat frame does: a frame already stored (same conversation, sender
/// and sequence number) changes nothing; otherwise its key is resolved and it is
/// opened, and the message is appended to the history, or the first failure is
/// reported and nothing changes.
pub open spec fn receive_ok(old: VaultData, frame: MessageFrame, new: VaultData, r: Result<Option<StoredMessage>, CoreError>) -> bool {
    let conv = frame.conversation_id@;
    let sender = frame.sender@;
    if has_incoming_spec(old.messages@, conv, sender, frame.seq) {
        r == Ok::<Option<StoredMessage>, CoreError>(None) && new == old
    } else {
        match r {
            Ok(Some(m)) => {
                &&& exists|k: SymmetricKey|
                    conv_key_ok(old, conv, sender, frame.epoch, Ok(k)) && #[trigger] open_frame_ok(
                        k@,
                        frame,
                        Ok(m.body),
                    )
                &&& m.conversation_id == frame.conversation_id
                &&& m.sender == frame.sender
                &&& !m.outgoing
                &&& m.seq == frame.seq
                &&& m.attachment is None
                &&& new.messages@ == old.messages@.push(m)
                &&& only_messages_changed(old, new)
            },
            Ok(None) => false,
            Err(e) => {
                &&& new == old
                &&& conv_key_ok(old, conv, sender, frame.epoch, Err(e)) || exists|k: SymmetricKey|
                    conv_key_ok(old, conv, sender, frame.epoch, Ok(k)) && #[trigger] open_frame_ok(k@, frame, Err(e))
            },
        }
    }
}

/// Receive a chat frame (1:1 or group) into the history.
pub fn receive_message(data: &mut VaultData, frame: MessageFrame) -> (r: Result<Option<StoredMessage>, CoreError>)
    ensures
        receive_ok(*old(data), frame, *final(data), r),
{
    if data.has_incoming(frame.conversation_id.as_str(), frame.sender.as_str(), frame.seq) {
        return Ok(None);
    }
    let key = match conv_key_for(data, frame.conversation_id.as_str(), frame.sender.as_str(), frame.epoch) {
        Ok(k) => k,
        Err(e) => return Err(e),
    };
    let body = match open_frame(&key, &frame) {
        Ok(b) => b,
        Err(e) => {
            assert(open_frame_ok(key@, frame, Err(e)));
            return Err(e);
        },
    };
    let msg = StoredMessage {
        conversation_id: frame.conversation_id.clone(),
        sender: frame.sender.clone(),
        body,
        ts: now_millis(),
        outgoing: false,
        seq: frame.seq,
        attachment: None,
    };
    let out = copy_message(&msg);
    assert(open_frame_ok(key@, frame, Ok(out.body)));
    data.add_message(msg);
    Ok(Some(out))
}

/// A stored incoming message makes the same frame a duplicate: receiving it again
/// changes nothing.
pub proof fn lemma_stored_frame_is_duplicate(messages: Seq<StoredMessage>, m: StoredMessage, frame: MessageFrame)
    requires
        m.conversation_id == frame.conversation_id,
        m.sender == frame.sender,
        m.seq == frame.seq,
        !m.outgoing,
    ensures
        has_incoming_spec(messages.push(m), frame.conversation_id@, frame.sender@, frame.seq),
{
    let s = messages.push(m);
    assert(s[messages.len() as int] == m);
}

/// The members of an invitation other than the account whose signing key is `my`.
pub open spec fn without_signing(members: Seq<Friend>, my: Seq<u8>) -> Seq<Friend> {
    members.filter(|f: Friend| utf8_bytes(f.signing_public@) != my)
}

/// The groups after an invitation with group key `kg`, for the account whose signing
/// key is `my`: a known group is refreshed (name, members, epoch, key) only when the
/// invitation's epoch is not older; an unknown group is added.
pub open spec fn groups_after_invite(groups: Seq<Group>, invite: GroupInvite, my: Seq<u8>, kg: Seq<u8>, after: Seq<Group>) -> bool {
    let members = without_signing(invite.members@, my);
    match group_index(groups, invite.group_id@) {
        Some(i) => if invite.epoch >= groups[i].epoch {
            &&& after.len() == groups.len()
            &&& forall|j: int| 0 <= j < groups.len() && j != i ==> after[j] == groups[j]
            &&& after[i].id == groups[i].id
            &&& after[i].name == invite.name
            &&& after[i].members@ == members
            &&& after[i].epoch == invite.epoch
            &&& utf8_bytes(after[i].key@) == hex_encode_spec(kg)
        } else {
            after == groups
        },
        None => {
            &&& after.len() == groups.len() + 1
            &&& after.take(groups.len() as int) == groups
            &&& after.last().id == invite.group_id
            &&& after.last().name == invite.name
            &&& after.last().members@ == members
            &&& after.last().epoch == invite.epoch
            &&& utf8_bytes(after.last().key@) == hex_encode_spec(kg)
        },
    }
}

/// The outcome of a group invitation for this account (`id`), once its originator
/// `invite.members[oi]` is found: on success the group is installed or refreshed with
/// the opened key; on failure nothing changes.
pub open spec fn invite_applied(old: VaultData, invite: GroupInvite, new: VaultData, id: Identity, oi: int, r: Result<String, CoreError>) -> bool {
    match r {
        Err(e) => new == old && open_group_ok(
            id.agreement_secret@,
            invite.members@[oi],
            utf8_bytes(invite.group_id@),
            invite.epoch,
            utf8_bytes(invite.sealed_key@),
            Err(e),
        ),
        Ok(gid) => {
            &&& gid == invite.group_id
            &&& only_groups_changed(old, new)
            &&& exists|kg: SymmetricKey|
                #[trigger] open_group_ok(
                    id.agreement_secret@,
                    invite.members@[oi],
                    utf8_bytes(invite.group_id@),
                    invite.epoch,
                    utf8_bytes(invite.sealed_key@),
                    Ok(kg),
                ) && groups_after_invite(
                    old.groups@,
                    invite,
                    hex_encode_spec(ed25519_public_key(id.signing_key@)),
                    kg@,
                    new.groups@,
                )
        },
    }
}

/// What applying a group invitation does: the originator must be in the invitation's
/// roster and the group key must open for this account from the originator; then the
/// group is installed or refreshed as above. On any failure nothing changes.
pub open spec fn invite_ok(old: VaultData, invite: GroupInvite, new: VaultData, r: Result<String, CoreError>) -> bool {
    if !has_identity(old) {
        r matches Err(e) && identity_fails(old, e) && new == old
    } else {
        match friend_index(invite.members@, invite.originator@) {
            None => r matches Err(e) && profile_error(e, "originator not in roster"@) && new == old,
            Some(oi) => forall|id: Identity| #[trigger] is_identity_of(old, id) ==> invite_applied(old, invite, new, id, oi, r),
        }
    }
}

/// The signing key (hex) of an identity.
fn signing_hex(me: &Identity) -> (h: String)
    ensures
        utf8_bytes(h@) == hex_encode_spec(ed25519_public_key(me.signing_key@)),
{
    let p = me.public();
    hex_encode(&p.signing_public)
}

/// Apply a group invitation: install or refresh the group it describes.
pub fn handle_invite(data: &mut VaultData, invite: GroupInvite) -> (r: Result<String, CoreError>)
    ensures
        invite_ok(*old(data), invite, *final(data), r),
{
    let me = match data.identity() {
        Ok(id) => id,
        Err(e) => {
            proof {
                lemma_identity_result(*data, Err(e));
            }
            return Err(e);
        },
    };
    proof {
        lemma_identity_result(*data, Ok(me));
    }
    let my_signing = signing_hex(&me);
    let oi = match position_of_friend(&invite.members, invite.originator.as_str()) {
        Some(i) => i,
        None => return Err(CoreError::BadProfile(String::from_str("originator not in roster"))),
    };
    let kg = match open_group_key(&me, &invite.members[oi], invite.group_id.as_str(), invite.epoch, invite.sealed_key.as_str()) {
        Ok(k) => k,
        Err(e) => {
            proof {
                assert forall|id: Identity| #[trigger] is_identity_of(*old(data), id) implies invite_applied(
                    *old(data),
                    invite,
                    *data,
                    id,
                    oi as int,
                    Err(e),
                ) by {
                    assert(id.agreement_secret@ == me.agreement_secret@);
                }
            }
            return Err(e);
        },
    };
    let ghost my = utf8_bytes(my_signing@);
    let ghost pred = |f: Friend| utf8_bytes(f.signing_public@) != my;
    let mut members: Vec<Friend> = Vec::new();
    let mut i: usize = 0;
    while i < invite.members.len()
        invariant
            0 <= i <= invite.members@.len(),
            my == utf8_bytes(my_signing@),
            pred == (|f: Friend| utf8_bytes(f.signing_public@) != my),
            members@ == invite.members@.take(i as int).filter(pred),
        decreases invite.members@.len() - i,
    {
        proof {
            let s = invite.members@.take(i + 1);
            assert(s.drop_last() =~= invite.members@.take(i as int));
            assert(s.last() == invite.members@[i as int]);
            reveal_with_fuel(Seq::filter, 1);
        }
        proof {
            crate::text::lemma_utf8_injective(invite.members@[i as int].signing_public@, my_signing@);
        }
        if !str_eq(invite.members[i].signing_public.as_str(), my_signing.as_str()) {
            members.push(copy_friend(&invite.members[i]));
        }
        i = i + 1;
    }
    proof {
        assert(invite.members@.take(invite.members@.len() as int) =~= invite.members@);
    }
    let ghost old_groups = data.groups@;
    let key_hex = hex_encode(&kg);
    let gid = invite.group_id.clone();
    match data.group_position(invite.group_id.as_str()) {
        Some(gi) => {
            proof {
                super::vault::lemma_first_group_unique(old_groups, invite.group_id@, gi as int);
            }
            if invite.epoch >= data.groups[gi].epoch {
                let ng = Group {
                    id: data.groups[gi].id.clone(),
                    name: invite.name.clone(),
                    members,
                    epoch: invite.epoch,
                    key: key_hex,
                };
                data.groups.set(gi, ng);
            }
        },
        None => {
            data.groups.push(
                Group { id: gid.clone(), name: invite.name.clone(), members, epoch: invite.epoch, key: key_hex },
            );
            proof {
                assert(data.groups@.take(old_groups.len() as int) =~= old_groups);
            }
        },
    }
    proof {
        assert(groups_after_invite(old_groups, invite, my, kg@, data.groups@));
        assert forall|id: Identity| #[trigger] is_identity_of(*old(data), id) implies invite_applied(
            *old(data),
            invite,
            *data,
            id,
            oi as int,
            Ok(gid),
        ) by {
            assert(id.agreement_secret@ == me.agreement_secret@);
            assert(id.signing_key@ == me.signing_key@);
            assert(open_group_ok(
                id.agreement_secret@,
                invite.members@[oi as int],
                utf8_bytes(invite.group_id@),
                invite.epoch,
                utf8_bytes(invite.sealed_key@),
                Ok(kg),
            ));
        }
    }
    Ok(gid)
}

/// Applying an invitation never moves a known group to an older epoch.
pub proof fn lemma_invite_never_lowers_epoch(
    groups: Seq<Group>,
    invite: GroupInvite,
    my: Seq<u8>,
    kg: Seq<u8>,
    after: Seq<Group>,
    id: Seq<char>,
)
    requires
        groups_after_invite(groups, invite, my, kg, after),
        group_spec(groups, id) is Some,
    ensures
        group_spec(after, id) matches Some(g1) && g1.epoch >= group_spec(groups, id)->0.epoch,
{
    match group_index(groups, invite.group_id@) {
        Some(i) => {
            if invite.epoch >= groups[i].epoch {
                let g = after[i];
                assert(after =~= groups.update(i, g));
                lemma_group_update_same_id(groups, i, g);
                assert(group_index(after, id) == group_index(groups, id));
            }
        },
        None => {
            let g = after.last();
            assert(after =~= groups.push(g));
            lemma_group_push_new_id(groups, g);
            assert(id != invite.group_id@);
            assert(group_index(after, id) == group_index(groups, id));
        },
    }
}

/// What applying a rotated 1:1 key does: its originator must be a friend and the key
/// must open for this account from them; then it becomes the conversation's stored key
/// at its epoch. On any failure nothing changes.
pub open spec fn key_update_ok(old: VaultData, ku: KeyUpdate, new: VaultData, r: Result<(), CoreError>) -> bool {
    if !has_identity(old) {
        r matches Err(e) && identity_fails(old, e) && new == old
    } else {
        match friend_index(old.friends@, ku.originator@) {
            None => r == Err::<(), CoreError>(CoreError::UnknownSender) && new == old,
            Some(fi) => forall|id: Identity|
                #[trigger] is_identity_of(old, id) ==> match r {
                    Err(e) => new == old && open_direct_ok(
                        id.agreement_secret@,
                        old.friends@[fi],
                        utf8_bytes(ku.conversation_id@),
                        ku.epoch,
                        utf8_bytes(ku.sealed_key@),
                        Err(e),
                    ),
                    Ok(_) => {
                        &&& only_keys_changed(old, new)
                        &&& forall|c: Seq<char>|
                            c != ku.conversation_id@ ==> #[trigger] direct_key_spec(new.direct_keys@, c)
                                == direct_key_spec(old.direct_keys@, c)
                        &&& exists|k: SymmetricKey|
                            #[trigger] open_direct_ok(
                                id.agreement_secret@,
                                old.friends@[fi],
                                utf8_bytes(ku.conversation_id@),
                                ku.epoch,
                                utf8_bytes(ku.sealed_key@),
                                Ok(k),
                            ) && (direct_key_spec(new.direct_keys@, ku.conversation_id@) matches Some(dk)
                                && dk.epoch == ku.epoch && utf8_bytes(dk.key@) == hex_encode_spec(k@))
                    },
                },
        }
    }
}

/// Apply a rotated 1:1 key sent by a friend.
pub fn receive_key_update(data: &mut VaultData, ku: KeyUpdate) -> (r: Result<(), CoreError>)
    ensures
        key_update_ok(*old(data), ku, *final(data), r),
{
    let me = match data.identity() {
        Ok(id) => id,
        Err(e) => {
            proof {
                lemma_identity_result(*data, Err(e));
            }
            return Err(e);
        },
    };
    proof {
        lemma_identity_result(*data, Ok(me));
    }
    let key = match data.friend_by_signing(ku.originator.as_str()) {
        None => return Err(CoreError::UnknownSender),
        Some(originator) => match open_direct_key(&me, originator, ku.conversation_id.as_str(), ku.epoch, ku.sealed_key.as_str()) {
            Ok(k) => k,
            Err(e) => return Err(e),
        },
    };
    let ghost fi = friend_index(data.friends@, ku.originator@)->0;
    assert(open_direct_ok(
        me.agreement_secret@,
        data.friends@[fi],
        utf8_bytes(ku.conversation_id@),
        ku.epoch,
        utf8_bytes(ku.sealed_key@),
        Ok(key),
    ));
    data.set_direct_key(ku.conversation_id.as_str(), ku.epoch, hex_encode(&key));
    Ok(())
}

/// What an inbound packet does, by its kind.
pub open spec fn packet_ok(old: VaultData, packet: Packet, new: VaultData, r: Result<Inbound, CoreError>) -> bool {
    match packet {
        Packet::Message(frame) => exists|rr: Result<Option<StoredMessage>, CoreError>|
            #[trigger] receive_ok(old, frame, new, rr) && r == match rr {
                Ok(Some(m)) => Ok(Inbound::Message(m)),
                Ok(None) => Ok(Inbound::Nothing),
                Err(e) => Err::<Inbound, CoreError>(e),
            },
        Packet::GroupInvite(invite) => exists|rr: Result<String, CoreError>|
            #[trigger] invite_ok(old, invite, new, rr) && r == match rr {
                Ok(gid) => Ok(Inbound::GroupUpdated(gid)),
                Err(e) => Err::<Inbound, CoreError>(e),
            },
        Packet::KeyUpdate(ku) => exists|rr: Result<(), CoreError>|
            #[trigger] key_update_ok(old, ku, new, rr) && r == match rr {
                Ok(_) => Ok(Inbound::Nothing),
                Err(e) => Err::<Inbound, CoreError>(e),
            },
        Packet::AttachmentMeta(meta) => new == old && r == Ok::<Inbound, CoreError>(Inbound::AttachmentHeader(meta)),
        Packet::AttachmentChunk(chunk) => new == old && r == Ok::<Inbound, CoreError>(Inbound::AttachmentChunk(chunk)),
    }
}

/// Dispatch one inbound packet.
pub fn process_incoming(data: &mut VaultData, packet: Packet) -> (r: Result<Inbound, CoreError>)
    ensures
        packet_ok(*old(data), packet, *final(data), r),
{
    match packet {
        Packet::Message(frame) => {
            let rr = receive_message(data, frame);
            match rr {
                Ok(Some(m)) => Ok(Inbound::Message(m)),
                Ok(None) => Ok(Inbound::Nothing),
                Err(e) => Err(e),
            }
        },
        Packet::GroupInvite(invite) => {
            let rr = handle_invite(data, invite);
            match rr {
                Ok(gid) => Ok(Inbound::GroupUpdated(gid)),
                Err(e) => Err(e),
            }
        },
        Packet::KeyUpdate(ku) => {
            let rr = receive_key_update(data, ku);
            match rr {
                Ok(_) => Ok(Inbound::Nothing),
                Err(e) => Err(e),
            }
        },
        Packet::AttachmentMeta(meta) => Ok(Inbound::AttachmentHeader(meta)),
        Packet::AttachmentChunk(chunk) => Ok(Inbound::AttachmentChunk(chunk)),
    }
}

/// What accepting an attachment header gives, the checks in order: the size cap, the
/// sender's key and the signature's hex, the signature over the header's signing bytes,
/// and the conversation key for the sender at the header's epoch; then a fresh
/// reassembly of the attachment under that key, expecting the header's chunk count.
pub open spec fn header_ok(data: VaultData, meta: AttachmentMeta, vault_key: Seq<u8>, r: Result<Reassembler, CoreError>) -> bool {
    if meta.size > MAX_ATTACHMENT {
        r matches Err(e) && storage_error(e, "attachment exceeds size cap"@)
    } else {
        match hex_key_spec(utf8_bytes(meta.sender@)) {
            None => r matches Err(e) && profile_error(e, "bad sender"@),
            Some(pk) => match hex_sig_spec(utf8_bytes(meta.signature@)) {
                None => r matches Err(e) && profile_error(e, "bad signature"@),
                Some(sig) => match verify_raw_spec(pk, meta_signing_spec(meta), sig) {
                    Err(c) => r matches Err(e) && reports(e, c),
                    Ok(_) => exists|kr: Result<SymmetricKey, CoreError>|
                        #[trigger] conv_key_ok(data, meta.conversation_id@, meta.sender@, meta.epoch, kr) && match kr {
                            Err(e) => r == Err::<Reassembler, CoreError>(e),
                            Ok(k) => r matches Ok(re) && {
                                &&& re.info_spec() == AttachmentInfo {
                                    id: meta.att_id,
                                    filename: meta.filename,
                                    mime: meta.mime,
                                    size: meta.size,
                                }
                                &&& re.conversation_spec() == meta.conversation_id@
                                &&& re.sender_spec() == meta.sender@
                                &&& re.seq_spec() == meta.seq
                                &&& re.key_spec() == k@
                                &&& re.vault_key_spec() == vault_key
                                &&& re.expected_spec() == meta.chunks
                                &&& re.received_set() == Set::<u32>::empty()
                            },
                        },
                },
            },
        }
    }
}

/// Verify an attachment header and start its reassembly, the finished file to be stored
/// under `vault_key`.
pub fn accept_attachment_header(data: &VaultData, meta: &AttachmentMeta, vault_key: SymmetricKey) -> (r: Result<Reassembler, CoreError>)
    ensures
        header_ok(*data, *meta, vault_key@, r),
{
    if meta.size > MAX_ATTACHMENT {
        return Err(CoreError::Storage(String::from_str("attachment exceeds size cap")));
    }
    let signer = match hex_decode_32(meta.sender.as_str()) {
        Some(a) => a,
        None => return Err(CoreError::BadProfile(String::from_str("bad sender"))),
    };
    let sig = match hex_decode_64(meta.signature.as_str()) {
        Some(a) => a,
        None => return Err(CoreError::BadProfile(String::from_str("bad signature"))),
    };
    let bytes = meta.signing_bytes();
    match verify_raw(&signer, bytes.as_slice(), &sig) {
        Ok(()) => {},
        Err(e) => return Err(from_crypto(e)),
    }
    let kr = conv_key_for(data, meta.conversation_id.as_str(), meta.sender.as_str(), meta.epoch);
    let key = match kr {
        Ok(k) => k,
        Err(e) => return Err(e),
    };
    let info = AttachmentInfo {
        id: meta.att_id.clone(),
        filename: meta.filename.clone(),
        mime: meta.mime.clone(),
        size: meta.size,
    };
    Ok(Reassembler::new(info, meta.conversation_id.clone(), meta.sender.clone(), meta.seq, key, vault_key, meta.chunks))
}

/// Open one incoming chunk (hex) of an attachment without recording it: `bad chunk hex`
/// for text that is not hex, otherwise what `take_chunk` gives.
pub fn receive_attachment_chunk(r: &Reassembler, index: u32, data_hex: &str) -> (res: Result<Option<(u64, Vec<u8>)>, CoreError>)
    ensures
        match hex_decode_spec(utf8_bytes(data_hex@)) {
            None => res matches Err(e) && crypto_failure(e, "bad chunk hex"@),
            Some(ct) => r.take_ok(index, ct, res),
        },
{
    let bytes = match hex_decode(data_hex) {
        Some(b) => b,
        None => return Err(CoreError::Crypto(String::from_str("bad chunk hex"))),
    };
    r.take_chunk(index, bytes.as_slice())
}

/// The message of a received attachment: its conversation, sender and sequence number,
/// incoming, with an empty body and the attachment; appended to the history.
pub fn record_incoming_attachment(data: &mut VaultData, r: &Reassembler, info: AttachmentInfo, ts: u64) -> (m: StoredMessage)
    ensures
        m.conversation_id@ == r.conversation_spec(),
        m.sender@ == r.sender_spec(),
        m.seq == r.seq_spec(),
        !m.outgoing,
        m.body@ == Seq::<char>::empty(),
        m.ts == ts,
        m.attachment == Some(info),
        final(data).messages@ == old(data).messages@.push(m),
        only_messages_changed(*old(data), *final(data)),
{
    let m = StoredMessage {
        conversation_id: String::from_str(r.conversation_id()),
        sender: String::from_str(r.sender()),
        body: String::new(),
        ts,
        outgoing: false,
        seq: r.seq(),
        attachment: Some(info),
    };
    let out = copy_message(&m);
    data.add_message(m);
    out
}

} // verus!
