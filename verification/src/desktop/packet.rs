//! The unit carried over the transport and the mailbox: every peer sends a `Packet`,
//! a chat message, a group invitation, a rotated 1:1 key, or an attachment's signed
//! header or one of its sealed chunks. One envelope gives the receive path a single
//! parse and dispatch point. The JSON encoding happens outside the library.

use vstd::prelude::*;

use super::vault::Friend;
use crate::hexcode::{dec, push_decimal};
use crate::protocol::MessageFrame;
use crate::text::{push_str_bytes, utf8_bytes};

verus! {

/// What a peer sends.
#[derive(Debug, Clone, PartialEq, Eq)]
pub enum Packet {
    /// A chat message (1:1 or group); the conversation id tells which.
    Message(MessageFrame),
    /// Invitation to, or membership refresh of, a group, addressed to one recipient.
    GroupInvite(GroupInvite),
    /// A rotated key of a 1:1 conversation, sealed under the identity pairwise key.
    KeyUpdate(KeyUpdate),
    /// The signed header of an attachment, sent before its chunks.
    AttachmentMeta(AttachmentMeta),
    /// One sealed chunk of an attachment.
    AttachmentChunk(AttachmentChunk),
}

/// The header of an attachment: what it is, where it belongs, the key epoch its chunks
/// are sealed under, and the sender's signature over all of it.
#[derive(Debug, Clone, PartialEq, Eq)]
pub struct AttachmentMeta {
    pub att_id: String,
    pub conversation_id: String,
    pub epoch: u64,
    /// The sender's Ed25519 public key, hex.
    pub sender: String,
    /// The sender's sequence number in the conversation.
    pub seq: u64,
    pub filename: String,
    pub mime: String,
    pub size: u64,
    pub chunks: u32,
    /// The sender's signature over the header's signing bytes, hex (64 bytes).
    pub signature: String,
}

/// One chunk of an attachment: its index and the sealed bytes, hex.
#[derive(Debug, Clone, PartialEq, Eq)]
pub struct AttachmentChunk {
    pub att_id: String,
    pub index: u32,
    pub data: String,
}

/// The bytes an attachment header's signature covers:
/// `seqr/att/v1|{att_id}|{conversation_id}|{epoch}|{sender}|{seq}|{filename}|{mime}|{size}|{chunks}`.
pub open spec fn meta_signing_spec(m: AttachmentMeta) -> Seq<u8> {
    let bar = utf8_bytes("|"@);
    utf8_bytes("seqr/att/v1|"@) + utf8_bytes(m.att_id@) + bar + utf8_bytes(m.conversation_id@) + bar + dec(
        m.epoch as nat,
    ) + bar + utf8_bytes(m.sender@) + bar + dec(m.seq as nat) + bar + utf8_bytes(m.filename@) + bar + utf8_bytes(
        m.mime@,
    ) + bar + dec(m.size as nat) + bar + dec(m.chunks as nat)
}

impl AttachmentMeta {
    /// The bytes the header's signature covers (every field but the signature).
    pub fn signing_bytes(&self) -> (b: Vec<u8>)
        ensures
            b@ == meta_signing_spec(*self),
    {
        let mut out: Vec<u8> = Vec::new();
        push_str_bytes(&mut out, "seqr/att/v1|");
        push_str_bytes(&mut out, self.att_id.as_str());
        push_str_bytes(&mut out, "|");
        push_str_bytes(&mut out, self.conversation_id.as_str());
        push_str_bytes(&mut out, "|");
        push_decimal(&mut out, self.epoch);
        push_str_bytes(&mut out, "|");
        push_str_bytes(&mut out, self.sender.as_str());
        push_str_bytes(&mut out, "|");
        push_decimal(&mut out, self.seq);
        push_str_bytes(&mut out, "|");
        push_str_bytes(&mut out, self.filename.as_str());
        push_str_bytes(&mut out, "|");
        push_str_bytes(&mut out, self.mime.as_str());
        push_str_bytes(&mut out, "|");
        push_decimal(&mut out, self.size);
        push_str_bytes(&mut out, "|");
        push_decimal(&mut out, self.chunks as u64);
        out
    }
}

/// A freshly rotated 1:1 key, sealed under the long-term pairwise key between the two
/// parties so the recipient can open it without a new profile exchange.
#[derive(Debug, Clone, PartialEq, Eq)]
pub struct KeyUpdate {
    pub conversation_id: String,
    pub epoch: u64,
    /// The sender's Ed25519 public key (hex), found in the recipient's roster.
    pub originator: String,
    /// `nonce || ciphertext` of the 32-byte key, hex.
    pub sealed_key: String,
}

/// Sent to each member alone: the full roster and the group key sealed under the
/// pairwise key between the originator and this recipient.
#[derive(Debug, Clone, PartialEq, Eq)]
pub struct GroupInvite {
    pub group_id: String,
    pub name: String,
    pub epoch: u64,
    /// Every member of the group (public data), the originator included.
    pub members: Vec<Friend>,
    /// The originator's Ed25519 public key (hex): who minted and sent this key.
    pub originator: String,
    /// `nonce || ciphertext` of the 32-byte group key, hex.
    pub sealed_key: String,
}

} // verus!
