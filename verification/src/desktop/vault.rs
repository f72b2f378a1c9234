//! The encrypted-at-rest local store. The vault file holds a cleartext header (version
//! and Argon2 salt) around a ChaCha20-Poly1305-sealed blob of all private state:
//! identity secrets, the friends roster, groups, keys and message history. The sealing
//! key is derived from the login password with Argon2id. This module holds the data
//! model and the sealing and opening of the blob; reading and writing the file, and
//! the JSON encoding of the data, happen outside.

use vstd::prelude::*;

use super::{crypto_failure, from_crypto, reports, storage_error, CoreError};
use crate::crypto::aead::{open, open_spec, seal};
use crate::crypto::kdf::{derive_vault_key, vault_key_spec};
use crate::crypto::keys::Identity;
use crate::crypto::primitives::{argon2_inputs_ok, chacha_plaintext_ok};
use crate::crypto::SymmetricKey;
use crate::hexcode::{hex_decode, hex_decode_32, hex_decode_spec, hex_encode, hex_encode_spec, hex_key_spec};
use crate::text::{path_join, path_join_spec, str_eq, utf8_bytes};

verus! {

/// A friend in the roster: public data only.
#[derive(Debug, Clone, PartialEq, Eq)]
pub struct Friend {
    pub display_name: String,
    /// X25519 public key, hex.
    pub agreement_public: String,
    /// Ed25519 public key, hex.
    pub signing_public: String,
    /// Transport address.
    pub node_addr: String,
}

/// A group conversation. `members` lists every other member (this account is
/// implicit). The group is sealed with one shared symmetric `key` at `epoch`.
#[derive(Debug, Clone, PartialEq, Eq)]
pub struct Group {
    pub id: String,
    pub name: String,
    pub members: Vec<Friend>,
    pub epoch: u64,
    /// Current group key, hex.
    pub key: String,
}

/// A file attached to a message.
#[derive(Debug, Clone, PartialEq, Eq)]
pub struct AttachmentInfo {
    pub id: String,
    pub filename: String,
    pub mime: String,
    pub size: u64,
}

/// One stored message in a conversation's history (plaintext within the sealed vault).
#[derive(Debug, Clone, PartialEq, Eq)]
pub struct StoredMessage {
    pub conversation_id: String,
    /// Sender's Ed25519 public key, hex (our own for outgoing messages).
    pub sender: String,
    pub body: String,
    /// Unix-millis timestamp.
    pub ts: u64,
    pub outgoing: bool,
    /// Per-sender sequence number, used to deduplicate.
    pub seq: u64,
    pub attachment: Option<AttachmentInfo>,
}

/// A rotated key of a 1:1 conversation.
#[derive(Debug, Clone, PartialEq, Eq)]
pub struct DirectKey {
    pub conversation_id: String,
    pub epoch: u64,
    /// The key, hex.
    pub key: String,
}

/// The decrypted contents of the vault.
#[derive(Debug, Clone, PartialEq, Eq)]
pub struct VaultData {
    pub display_name: String,
    /// Hex of the X25519 secret (key agreement).
    pub agreement_secret: String,
    /// Hex of the Ed25519 secret (signing).
    pub signing_secret: String,
    /// Transport address; filled in once the transport starts.
    pub node_addr: String,
    pub friends: Vec<Friend>,
    /// Chat history across all conversations, in arrival order.
    pub messages: Vec<StoredMessage>,
    /// Group conversations this account is a member of.
    pub groups: Vec<Group>,
    /// Rotated keys of 1:1 conversations.
    pub direct_keys: Vec<DirectKey>,
}

/// A copy of an attachment record.
pub fn copy_attachment(a: &AttachmentInfo) -> (r: AttachmentInfo)
    ensures
        r == *a,
{
    AttachmentInfo { id: a.id.clone(), filename: a.filename.clone(), mime: a.mime.clone(), size: a.size }
}

/// A copy of a stored message.
pub fn copy_message(m: &StoredMessage) -> (r: StoredMessage)
    ensures
        r == *m,
{
    let attachment = match &m.attachment {
        Some(a) => Some(copy_attachment(a)),
        None => None,
    };
    StoredMessage {
        conversation_id: m.conversation_id.clone(),
        sender: m.sender.clone(),
        body: m.body.clone(),
        ts: m.ts,
        outgoing: m.outgoing,
        seq: m.seq,
        attachment,
    }
}

/// A copy of a friend record.
pub fn copy_friend(f: &Friend) -> (r: Friend)
    ensures
        r == *f,
{
    Friend {
        display_name: f.display_name.clone(),
        agreement_public: f.agreement_public.clone(),
        signing_public: f.signing_public.clone(),
        node_addr: f.node_addr.clone(),
    }
}

/// A copy of a roster.
pub fn copy_friends(v: &Vec<Friend>) -> (r: Vec<Friend>)
    ensures
        r@ == v@,
{
    let mut out: Vec<Friend> = Vec::new();
    let mut i: usize = 0;
    while i < v.len()
        invariant
            0 <= i <= v@.len(),
            out@ == v@.subrange(0, i as int),
        decreases v@.len() - i,
    {
        out.push(copy_friend(&v[i]));
        proof {
            assert(out@ =~= v@.subrange(0, i + 1));
        }
        i = i + 1;
    }
    assert(out@ =~= v@);
    out
}

/// A copy of a group.
pub fn copy_group(g: &Group) -> (r: Group)
    ensures
        r.id == g.id,
        r.name == g.name,
        r.members@ == g.members@,
        r.epoch == g.epoch,
        r.key == g.key,
{
    Group {
        id: g.id.clone(),
        name: g.name.clone(),
        members: copy_friends(&g.members),
        epoch: g.epoch,
        key: g.key.clone(),
    }
}

/// The messages of one conversation, in stored order.
pub open spec fn history_spec(messages: Seq<StoredMessage>, conversation_id: Seq<char>) -> Seq<StoredMessage> {
    messages.filter(|m: StoredMessage| m.conversation_id@ == conversation_id)
}

/// The outgoing messages of one conversation.
pub open spec fn outgoing_in(messages: Seq<StoredMessage>, conversation_id: Seq<char>) -> Seq<StoredMessage> {
    messages.filter(|m: StoredMessage| m.conversation_id@ == conversation_id && m.outgoing)
}

/// `i` is the first index of a friend with signing key `s`.
pub open spec fn first_friend(friends: Seq<Friend>, s: Seq<char>, i: int) -> bool {
    &&& 0 <= i < friends.len()
    &&& friends[i].signing_public@ == s
    &&& forall|j: int| 0 <= j < i ==> (#[trigger] friends[j]).signing_public@ != s
}

/// No friend has signing key `s`.
pub open spec fn no_friend(friends: Seq<Friend>, s: Seq<char>) -> bool {
    forall|j: int| 0 <= j < friends.len() ==> (#[trigger] friends[j]).signing_public@ != s
}

/// The index of the first friend with signing key `s`, if any.
pub open spec fn friend_index(friends: Seq<Friend>, s: Seq<char>) -> Option<int> {
    if exists|i: int| first_friend(friends, s, i) {
        Some(choose|i: int| first_friend(friends, s, i))
    } else {
        None
    }
}

/// `i` is the first index of a group with id `id`.
pub open spec fn first_group(groups: Seq<Group>, id: Seq<char>, i: int) -> bool {
    &&& 0 <= i < groups.len()
    &&& groups[i].id@ == id
    &&& forall|j: int| 0 <= j < i ==> (#[trigger] groups[j]).id@ != id
}

/// The index of the first group with id `id`, if any.
pub open spec fn group_index(groups: Seq<Group>, id: Seq<char>) -> Option<int> {
    if exists|i: int| first_group(groups, id, i) {
        Some(choose|i: int| first_group(groups, id, i))
    } else {
        None
    }
}

/// The first group with id `id`, if any.
pub open spec fn group_spec(groups: Seq<Group>, id: Seq<char>) -> Option<Group> {
    match group_index(groups, id) {
        Some(i) => Some(groups[i]),
        None => None,
    }
}

/// `i` is the first index of a rotated key of conversation `c`.
pub open spec fn first_direct_key(keys: Seq<DirectKey>, c: Seq<char>, i: int) -> bool {
    &&& 0 <= i < keys.len()
    &&& keys[i].conversation_id@ == c
    &&& forall|j: int| 0 <= j < i ==> (#[trigger] keys[j]).conversation_id@ != c
}

/// The first rotated key of conversation `c`, if any.
pub open spec fn direct_key_spec(keys: Seq<DirectKey>, c: Seq<char>) -> Option<DirectKey> {
    if exists|i: int| first_direct_key(keys, c, i) {
        Some(keys[choose|i: int| first_direct_key(keys, c, i)])
    } else {
        None
    }
}

/// The first index satisfying `first_*` is unique.
pub proof fn lemma_first_group_unique(groups: Seq<Group>, id: Seq<char>, i: int)
    requires
        first_group(groups, id, i),
    ensures
        group_index(groups, id) == Some(i),
{
    let k = choose|k: int| first_group(groups, id, k);
    if k < i {
        assert(groups[k].id@ != id);
    } else if k > i {
        assert(groups[i].id@ != id);
    }
}

pub proof fn lemma_first_friend_unique(friends: Seq<Friend>, s: Seq<char>, i: int)
    requires
        first_friend(friends, s, i),
    ensures
        friend_index(friends, s) == Some(i),
{
    let k = choose|k: int| first_friend(friends, s, k);
    if k < i {
        assert(friends[k].signing_public@ != s);
    } else if k > i {
        assert(friends[i].signing_public@ != s);
    }
}

pub proof fn lemma_first_direct_key_unique(keys: Seq<DirectKey>, c: Seq<char>, i: int)
    requires
        first_direct_key(keys, c, i),
    ensures
        direct_key_spec(keys, c) == Some(keys[i]),
{
    let k = choose|k: int| first_direct_key(keys, c, k);
    if k < i {
        assert(keys[k].conversation_id@ != c);
    } else if k > i {
        assert(keys[i].conversation_id@ != c);
    }
}

/// Replacing a group by one with the same id leaves every lookup by id pointing at the
/// same position.
pub proof fn lemma_group_update_same_id(groups: Seq<Group>, i: int, g: Group)
    requires
        0 <= i < groups.len(),
        g.id@ == groups[i].id@,
    ensures
        forall|id: Seq<char>| #[trigger] group_index(groups.update(i, g), id) == group_index(groups, id),
{
    let u = groups.update(i, g);
    assert forall|id: Seq<char>| #[trigger] group_index(u, id) == group_index(groups, id) by {
        assert forall|k: int| first_group(u, id, k) <==> first_group(groups, id, k) by {
            if 0 <= k < groups.len() {
                assert(u[k].id@ == groups[k].id@);
                assert(forall|j: int| 0 <= j < k ==> u[j].id@ == groups[j].id@);
                if first_group(u, id, k) {
                    assert forall|j: int| 0 <= j < k implies (#[trigger] groups[j]).id@ != id by {
                        assert(u[j].id@ != id);
                    }
                }
                if first_group(groups, id, k) {
                    assert forall|j: int| 0 <= j < k implies (#[trigger] u[j]).id@ != id by {
                        assert(groups[j].id@ != id);
                    }
                }
            }
        }
        if exists|k: int| first_group(groups, id, k) {
            let k = choose|k: int| first_group(groups, id, k);
            lemma_first_group_unique(groups, id, k);
            lemma_first_group_unique(u, id, k);
        }
    }
}

/// Appending a group whose id is new leaves every other lookup as it was and finds the
/// new group at the end.
pub proof fn lemma_group_push_new_id(groups: Seq<Group>, g: Group)
    requires
        group_index(groups, g.id@) is None,
    ensures
        group_index(groups.push(g), g.id@) == Some(groups.len() as int),
        forall|id: Seq<char>| id != g.id@ ==> #[trigger] group_index(groups.push(g), id) == group_index(groups, id),
{
    let u = groups.push(g);
    assert forall|j: int| 0 <= j < groups.len() implies (#[trigger] groups[j]).id@ != g.id@ by {
        if groups[j].id@ == g.id@ {
            lemma_first_index_exists(groups, g.id@, j);
        }
    }
    assert(first_group(u, g.id@, groups.len() as int)) by {
        assert forall|j: int| 0 <= j < groups.len() implies (#[trigger] u[j]).id@ != g.id@ by {
            assert(u[j] == groups[j]);
        }
    }
    lemma_first_group_unique(u, g.id@, groups.len() as int);
    assert forall|id: Seq<char>| id != g.id@ implies #[trigger] group_index(u, id) == group_index(groups, id) by {
        if exists|k: int| first_group(groups, id, k) {
            let k = choose|k: int| first_group(groups, id, k);
            assert(first_group(u, id, k));
            lemma_first_group_unique(groups, id, k);
            lemma_first_group_unique(u, id, k);
        } else if exists|k: int| first_group(u, id, k) {
            let k = choose|k: int| first_group(u, id, k);
            assert(k < groups.len());
            assert forall|j: int| 0 <= j < k implies (#[trigger] groups[j]).id@ != id by {
                assert(u[j] == groups[j]);
            }
            assert(u[k] == groups[k]);
            assert(first_group(groups, id, k));
        }
    }
}

/// Where some group has id `id`, a first such group exists.
proof fn lemma_first_index_exists(groups: Seq<Group>, id: Seq<char>, j: int)
    requires
        0 <= j < groups.len(),
        groups[j].id@ == id,
    ensures
        exists|k: int| first_group(groups, id, k),
    decreases j,
{
    if forall|m: int| 0 <= m < j ==> (#[trigger] groups[m]).id@ != id {
        assert(first_group(groups, id, j));
    } else {
        let m = choose|m: int| 0 <= m < j && (#[trigger] groups[m]).id@ == id;
        lemma_first_index_exists(groups, id, m);
    }
}

/// The position of the first friend in `friends` with signing key `signing`.
pub fn position_of_friend(friends: &Vec<Friend>, signing: &str) -> (r: Option<usize>)
    ensures
        match r {
            Some(i) => first_friend(friends@, signing@, i as int) && friend_index(friends@, signing@) == Some(i as int),
            None => forall|j: int| 0 <= j < friends@.len() ==> (#[trigger] friends@[j]).signing_public@ != signing@,
        },
        r is None <==> friend_index(friends@, signing@) is None,
{
    let mut i: usize = 0;
    while i < friends.len()
        invariant
            0 <= i <= friends@.len(),
            forall|j: int| 0 <= j < i ==> (#[trigger] friends@[j]).signing_public@ != signing@,
        decreases friends@.len() - i,
    {
        if str_eq(friends[i].signing_public.as_str(), signing) {
            proof {
                crate::text::lemma_utf8_injective(friends@[i as int].signing_public@, signing@);
                lemma_first_friend_unique(friends@, signing@, i as int);
            }
            return Some(i);
        }
        i = i + 1;
    }
    None
}

/// Whether an incoming message with this conversation, sender and sequence number is
/// stored.
pub open spec fn has_incoming_spec(
    messages: Seq<StoredMessage>,
    conversation_id: Seq<char>,
    sender: Seq<char>,
    seq: u64,
) -> bool {
    exists|i: int|
        0 <= i < messages.len() && !(#[trigger] messages[i]).outgoing && messages[i].conversation_id@
            == conversation_id && messages[i].sender@ == sender && messages[i].seq == seq
}

/// Decoding of a stored 32-byte hex key: the bytes, or the storage error the vault
/// reports (`bad hex`, `bad key length`).
pub open spec fn decode32_ok(t: Seq<u8>, r: Result<[u8; 32], CoreError>) -> bool {
    match hex_decode_spec(t) {
        None => r matches Err(e) && storage_error(e, "bad hex"@),
        Some(b) => if b.len() == 32 {
            r matches Ok(a) && a@ == b
        } else {
            r matches Err(e) && storage_error(e, "bad key length"@)
        },
    }
}

/// A stored 32-byte hex key.
fn decode32(s: &str) -> (r: Result<[u8; 32], CoreError>)
    ensures
        decode32_ok(utf8_bytes(s@), r),
{
    match hex_decode(s) {
        None => Err(CoreError::Storage(String::from_str("bad hex"))),
        Some(v) => {
            if v.len() != 32 {
                return Err(CoreError::Storage(String::from_str("bad key length")));
            }
            match hex_decode_32(s) {
                Some(a) => Ok(a),
                None => Err(CoreError::Storage(String::from_str("bad key length"))),
            }
        },
    }
}

impl VaultData {
    /// Append a message to the history, and return how many outgoing messages its
    /// conversation now has (the next outgoing sequence number there).
    pub fn add_message(&mut self, msg: StoredMessage) -> (n: u64)
        ensures
            final(self).messages@ == old(self).messages@.push(msg),
            n == outgoing_in(final(self).messages@, msg.conversation_id@).len(),
            final(self).friends == old(self).friends,
            final(self).groups == old(self).groups,
            final(self).direct_keys == old(self).direct_keys,
            final(self).display_name == old(self).display_name,
            final(self).agreement_secret == old(self).agreement_secret,
            final(self).signing_secret == old(self).signing_secret,
            final(self).node_addr == old(self).node_addr,
    {
        let conversation_id = msg.conversation_id.clone();
        self.messages.push(msg);
        self.next_seq(conversation_id.as_str())
    }

    /// Messages of one conversation, in stored (chronological) order.
    pub fn history(&self, conversation_id: &str) -> (r: Vec<StoredMessage>)
        ensures
            r@ == history_spec(self.messages@, conversation_id@),
    {
        let ghost pred = |m: StoredMessage| m.conversation_id@ == conversation_id@;
        let mut out: Vec<StoredMessage> = Vec::new();
        let mut i: usize = 0;
        while i < self.messages.len()
            invariant
                0 <= i <= self.messages@.len(),
                pred == (|m: StoredMessage| m.conversation_id@ == conversation_id@),
                out@ == self.messages@.subrange(0, i as int).filter(pred),
            decreases self.messages@.len() - i,
        {
            proof {
                let s = self.messages@.subrange(0, i + 1);
                assert(s.drop_last() =~= self.messages@.subrange(0, i as int));
                reveal_with_fuel(Seq::filter, 1);
            }
            if str_eq(self.messages[i].conversation_id.as_str(), conversation_id) {
                proof {
                    crate::text::lemma_utf8_injective(self.messages@[i as int].conversation_id@, conversation_id@);
                }
                out.push(copy_message(&self.messages[i]));
            } else {
                proof {
                    if self.messages@[i as int].conversation_id@ == conversation_id@ {
                        assert(utf8_bytes(self.messages@[i as int].conversation_id@) == utf8_bytes(conversation_id@));
                    }
                }
            }
            i = i + 1;
        }
        assert(self.messages@.subrange(0, self.messages@.len() as int) =~= self.messages@);
        out
    }

    /// Count of outgoing messages in a conversation: the next outgoing sequence number.
    pub fn next_seq(&self, conversation_id: &str) -> (n: u64)
        ensures
            n == outgoing_in(self.messages@, conversation_id@).len(),
    {
        let ghost pred = |m: StoredMessage| m.conversation_id@ == conversation_id@ && m.outgoing;
        let mut count: u64 = 0;
        let mut i: usize = 0;
        while i < self.messages.len()
            invariant
                0 <= i <= self.messages@.len(),
                pred == (|m: StoredMessage| m.conversation_id@ == conversation_id@ && m.outgoing),
                count == self.messages@.subrange(0, i as int).filter(pred).len(),
                count <= i,
            decreases self.messages@.len() - i,
        {
            proof {
                let s = self.messages@.subrange(0, i + 1);
                assert(s.drop_last() =~= self.messages@.subrange(0, i as int));
                reveal_with_fuel(Seq::filter, 1);
            }
            let m = &self.messages[i];
            if m.outgoing && str_eq(m.conversation_id.as_str(), conversation_id) {
                proof {
                    crate::text::lemma_utf8_injective(m.conversation_id@, conversation_id@);
                }
                count = count + 1;
            } else {
                proof {
                    if m.conversation_id@ == conversation_id@ {
                        assert(utf8_bytes(m.conversation_id@) == utf8_bytes(conversation_id@));
                    }
                }
            }
            i = i + 1;
        }
        assert(self.messages@.subrange(0, self.messages@.len() as int) =~= self.messages@);
        count
    }

    /// The first friend with this Ed25519 (signing) public key.
    pub fn friend_by_signing(&self, signing_public: &str) -> (r: Option<&Friend>)
        ensures
            match friend_index(self.friends@, signing_public@) {
                Some(i) => r == Some(&self.friends@[i]),
                None => r is None,
            },
    {
        let mut i: usize = 0;
        while i < self.friends.len()
            invariant
                0 <= i <= self.friends@.len(),
                forall|j: int| 0 <= j < i ==> (#[trigger] self.friends@[j]).signing_public@ != signing_public@,
            decreases self.friends@.len() - i,
        {
            if str_eq(self.friends[i].signing_public.as_str(), signing_public) {
                proof {
                    crate::text::lemma_utf8_injective(self.friends@[i as int].signing_public@, signing_public@);
                    lemma_first_friend_unique(self.friends@, signing_public@, i as int);
                }
                return Some(&self.friends[i]);
            }
            i = i + 1;
        }
        None
    }

    /// The group with this id.
    pub fn group_by_id(&self, id: &str) -> (r: Option<&Group>)
        ensures
            match group_index(self.groups@, id@) {
                Some(i) => r == Some(&self.groups@[i]),
                None => r is None,
            },
    {
        let mut i: usize = 0;
        while i < self.groups.len()
            invariant
                0 <= i <= self.groups@.len(),
                forall|j: int| 0 <= j < i ==> (#[trigger] self.groups@[j]).id@ != id@,
            decreases self.groups@.len() - i,
        {
            if str_eq(self.groups[i].id.as_str(), id) {
                proof {
                    crate::text::lemma_utf8_injective(self.groups@[i as int].id@, id@);
                    lemma_first_group_unique(self.groups@, id@, i as int);
                }
                return Some(&self.groups[i]);
            }
            i = i + 1;
        }
        None
    }

    /// The position of the group with this id.
    pub(crate) fn group_position(&self, id: &str) -> (r: Option<usize>)
        ensures
            match r {
                Some(i) => first_group(self.groups@, id@, i as int),
                None => group_index(self.groups@, id@) is None,
            },
    {
        let mut i: usize = 0;
        while i < self.groups.len()
            invariant
                0 <= i <= self.groups@.len(),
                forall|j: int| 0 <= j < i ==> (#[trigger] self.groups@[j]).id@ != id@,
            decreases self.groups@.len() - i,
        {
            if str_eq(self.groups[i].id.as_str(), id) {
                proof {
                    crate::text::lemma_utf8_injective(self.groups@[i as int].id@, id@);
                    lemma_first_group_unique(self.groups@, id@, i as int);
                }
                return Some(i);
            }
            i = i + 1;
        }
        None
    }

    /// The group with this id, to update in place.
    pub fn group_by_id_mut(&mut self, group_id: &str) -> (r: Option<&mut Group>)
        ensures
            match group_index(old(self).groups@, group_id@) {
                Some(i) => r matches Some(g) && *g == old(self).groups@[i] && final(self).groups@
                    == old(self).groups@.update(i, *final(g)),
                None => r is None && final(self).groups == old(self).groups,
            },
            final(self).friends == old(self).friends,
            final(self).messages == old(self).messages,
            final(self).direct_keys == old(self).direct_keys,
            final(self).display_name == old(self).display_name,
            final(self).agreement_secret == old(self).agreement_secret,
            final(self).signing_secret == old(self).signing_secret,
            final(self).node_addr == old(self).node_addr,
    {
        match self.group_position(group_id) {
            Some(i) => {
                proof {
                    lemma_first_group_unique(self.groups@, group_id@, i as int);
                }
                Some(&mut self.groups[i])
            },
            None => None,
        }
    }

    /// The group's symmetric key as raw bytes, for its current epoch.
    pub fn group_key(&self, id: &str) -> (r: Option<[u8; 32]>)
        ensures
            match group_spec(self.groups@, id@) {
                Some(g) => match hex_key_spec(utf8_bytes(g.key@)) {
                    Some(k) => r matches Some(a) && a@ == k,
                    None => r is None,
                },
                None => r is None,
            },
    {
        match self.group_by_id(id) {
            Some(g) => hex_decode_32(g.key.as_str()),
            None => None,
        }
    }

    /// True if an incoming message with this (conversation, sender, seq) is already
    /// stored: the same message may arrive both directly and through the mailbox.
    pub fn has_incoming(&self, conversation_id: &str, sender: &str, seq: u64) -> (r: bool)
        ensures
            r == has_incoming_spec(self.messages@, conversation_id@, sender@, seq),
    {
        let mut i: usize = 0;
        while i < self.messages.len()
            invariant
                0 <= i <= self.messages@.len(),
                forall|j: int|
                    0 <= j < i ==> !(!(#[trigger] self.messages@[j]).outgoing && self.messages@[j].conversation_id@
                        == conversation_id@ && self.messages@[j].sender@ == sender@
                        && self.messages@[j].seq == seq),
            decreases self.messages@.len() - i,
        {
            let m = &self.messages[i];
            let same_conv = str_eq(m.conversation_id.as_str(), conversation_id);
            let same_sender = str_eq(m.sender.as_str(), sender);
            proof {
                if same_conv {
                    crate::text::lemma_utf8_injective(m.conversation_id@, conversation_id@);
                } else if m.conversation_id@ == conversation_id@ {
                    assert(utf8_bytes(m.conversation_id@) == utf8_bytes(conversation_id@));
                }
                if same_sender {
                    crate::text::lemma_utf8_injective(m.sender@, sender@);
                } else if m.sender@ == sender@ {
                    assert(utf8_bytes(m.sender@) == utf8_bytes(sender@));
                }
            }
            if !m.outgoing && same_conv && same_sender && m.seq == seq {
                return true;
            }
            i = i + 1;
        }
        false
    }

    /// The rotated key of a 1:1 conversation, if one is stored.
    pub fn direct_key(&self, conversation_id: &str) -> (r: Option<&DirectKey>)
        ensures
            match direct_key_spec(self.direct_keys@, conversation_id@) {
                Some(k) => r == Some(&k),
                None => r is None,
            },
    {
        let mut i: usize = 0;
        while i < self.direct_keys.len()
            invariant
                0 <= i <= self.direct_keys@.len(),
                forall|j: int| 0 <= j < i ==> (#[trigger] self.direct_keys@[j]).conversation_id@ != conversation_id@,
            decreases self.direct_keys@.len() - i,
        {
            if str_eq(self.direct_keys[i].conversation_id.as_str(), conversation_id) {
                proof {
                    crate::text::lemma_utf8_injective(self.direct_keys@[i as int].conversation_id@, conversation_id@);
                    lemma_first_direct_key_unique(self.direct_keys@, conversation_id@, i as int);
                }
                return Some(&self.direct_keys[i]);
            }
            i = i + 1;
        }
        None
    }

    /// The position of the rotated key of a conversation.
    fn direct_key_position(&self, conversation_id: &str) -> (r: Option<usize>)
        ensures
            match r {
                Some(i) => first_direct_key(self.direct_keys@, conversation_id@, i as int),
                None => forall|j: int|
                    0 <= j < self.direct_keys@.len() ==> (#[trigger] self.direct_keys@[j]).conversation_id@
                        != conversation_id@,
            },
    {
        let mut i: usize = 0;
        while i < self.direct_keys.len()
            invariant
                0 <= i <= self.direct_keys@.len(),
                forall|j: int| 0 <= j < i ==> (#[trigger] self.direct_keys@[j]).conversation_id@ != conversation_id@,
            decreases self.direct_keys@.len() - i,
        {
            if str_eq(self.direct_keys[i].conversation_id.as_str(), conversation_id) {
                proof {
                    crate::text::lemma_utf8_injective(self.direct_keys@[i as int].conversation_id@, conversation_id@);
                }
                return Some(i);
            }
            i = i + 1;
        }
        None
    }

    /// Record the rotated key of a 1:1 conversation, replacing the one stored for it.
    pub fn set_direct_key(&mut self, conversation_id: &str, epoch: u64, key: String)
        ensures
            direct_key_spec(final(self).direct_keys@, conversation_id@) matches Some(k) && k.epoch == epoch
                && k.key == key && k.conversation_id@ == conversation_id@,
            forall|c: Seq<char>|
                c != conversation_id@ ==> #[trigger] direct_key_spec(final(self).direct_keys@, c)
                    == direct_key_spec(old(self).direct_keys@, c),
            final(self).friends == old(self).friends,
            final(self).messages == old(self).messages,
            final(self).groups == old(self).groups,
            final(self).display_name == old(self).display_name,
            final(self).agreement_secret == old(self).agreement_secret,
            final(self).signing_secret == old(self).signing_secret,
            final(self).node_addr == old(self).node_addr,
    {
        let ghost before = self.direct_keys@;
        let entry = DirectKey { conversation_id: String::from_str(conversation_id), epoch, key };
        let pos = self.direct_key_position(conversation_id);
        let ghost at: int = match pos {
            Some(i) => i as int,
            None => before.len() as int,
        };
        match pos {
            Some(i) => {
                self.direct_keys.set(i, entry);
            },
            None => {
                self.direct_keys.push(entry);
            },
        }
        proof {
            let after = self.direct_keys@;
            assert(after.len() >= before.len());
            assert(forall|j: int| 0 <= j < before.len() && j != at ==> after[j] == before[j]);
            assert(after[at].conversation_id@ == conversation_id@);
            assert(at < before.len() ==> before[at].conversation_id@ == conversation_id@);
            assert(first_direct_key(after, conversation_id@, at));
            lemma_first_direct_key_unique(after, conversation_id@, at);
            assert forall|c: Seq<char>| c != conversation_id@ implies #[trigger] direct_key_spec(after, c)
                == direct_key_spec(before, c) by {
                if exists|k: int| first_direct_key(before, c, k) {
                    let k = choose|k: int| first_direct_key(before, c, k);
                    assert(k != at);
                    assert forall|j: int| 0 <= j < k implies (#[trigger] after[j]).conversation_id@ != c by {
                        assert(before[j].conversation_id@ != c);
                    }
                    assert(first_direct_key(after, c, k));
                    lemma_first_direct_key_unique(before, c, k);
                    lemma_first_direct_key_unique(after, c, k);
                } else {
                    if exists|k: int| first_direct_key(after, c, k) {
                        let k = choose|k: int| first_direct_key(after, c, k);
                        assert(k != at);
                        assert(k < before.len());
                        assert forall|j: int| 0 <= j < k implies (#[trigger] before[j]).conversation_id@ != c by {
                            if j != at {
                                assert(after[j].conversation_id@ != c);
                            }
                        }
                        assert(first_direct_key(before, c, k));
                    }
                }
            }
        }
    }

    /// The live identity from the stored secret bytes: both secrets must be 32 bytes
    /// of hex, the agreement secret checked first.
    pub fn identity(&self) -> (r: Result<Identity, CoreError>)
        ensures
            identity_ok(self.agreement_secret@, self.signing_secret@, r),
    {
        let agreement = match decode32(self.agreement_secret.as_str()) {
            Ok(a) => a,
            Err(e) => return Err(e),
        };
        let signing = match decode32(self.signing_secret.as_str()) {
            Ok(s) => s,
            Err(e) => return Err(e),
        };
        match Identity::from_secret_bytes(&agreement, &signing) {
            Ok(id) => Ok(id),
            Err(e) => Err(from_crypto(e)),
        }
    }
}

/// The identity a vault's secret fields give: its secrets are the decoded bytes, or
/// the error of the first field that does not decode.
pub open spec fn identity_ok(agreement: Seq<char>, signing: Seq<char>, r: Result<Identity, CoreError>) -> bool {
    let a = utf8_bytes(agreement);
    let s = utf8_bytes(signing);
    match (hex_key_spec(a), hex_key_spec(s)) {
        (Some(ka), Some(ks)) => r matches Ok(id) && id.agreement_secret@ == ka && id.signing_key@ == ks,
        (None, _) => r matches Err(e) && decode32_ok(a, Err(e)),
        (Some(_), None) => r matches Err(e) && decode32_ok(s, Err(e)),
    }
}

/// The vault holds an identity: both secrets are 32 bytes of hex.
pub open spec fn has_identity(data: VaultData) -> bool {
    &&& hex_key_spec(utf8_bytes(data.agreement_secret@)) is Some
    &&& hex_key_spec(utf8_bytes(data.signing_secret@)) is Some
}

/// `id` is the identity the vault holds.
pub open spec fn is_identity_of(data: VaultData, id: Identity) -> bool {
    &&& hex_key_spec(utf8_bytes(data.agreement_secret@)) == Some(id.agreement_secret@)
    &&& hex_key_spec(utf8_bytes(data.signing_secret@)) == Some(id.signing_key@)
}

/// `e` is the error `identity()` reports for a vault without an identity.
pub open spec fn identity_fails(data: VaultData, e: CoreError) -> bool {
    let a = utf8_bytes(data.agreement_secret@);
    let s = utf8_bytes(data.signing_secret@);
    match (hex_key_spec(a), hex_key_spec(s)) {
        (None, _) => decode32_ok(a, Err(e)),
        (Some(_), None) => decode32_ok(s, Err(e)),
        (Some(_), Some(_)) => false,
    }
}

/// What `identity()` gives, in the terms above.
pub proof fn lemma_identity_result(data: VaultData, r: Result<Identity, CoreError>)
    requires
        identity_ok(data.agreement_secret@, data.signing_secret@, r),
    ensures
        has_identity(data) ==> (r matches Ok(id) && is_identity_of(data, id)),
        !has_identity(data) ==> (r matches Err(e) && identity_fails(data, e)),
{
}

/// The vault file's path in the data directory: `<data_dir>/vault.json`.
pub fn vault_path(data_dir: &str) -> (p: String)
    ensures
        utf8_bytes(p@) == path_join_spec(utf8_bytes(data_dir@), utf8_bytes("vault.json"@)),
{
    path_join(data_dir, "vault.json")
}

/// The associated data that binds the sealed blob to the vault format:
/// `seqr-vault-v1`.
pub open spec fn vault_aad() -> Seq<u8> {
    seq![115u8, 101, 113, 114, 45, 118, 97, 117, 108, 116, 45, 118, 49]
}

fn vault_aad_bytes() -> (b: [u8; 13])
    ensures
        b@ == vault_aad(),
{
    let b: [u8; 13] = [115u8, 101, 113, 114, 45, 118, 97, 117, 108, 116, 45, 118, 49];
    assert(b@ =~= vault_aad());
    b
}

/// A fresh vault for a new account: its display name and the hex of its two secrets,
/// with an empty roster, history, group list and key list.
pub fn new_vault_data(display_name: &str, identity: &Identity) -> (d: VaultData)
    ensures
        d.display_name@ == display_name@,
        utf8_bytes(d.agreement_secret@) == hex_encode_spec(identity.agreement_secret@),
        utf8_bytes(d.signing_secret@) == hex_encode_spec(identity.signing_key@),
        d.node_addr@ == Seq::<char>::empty(),
        d.friends@.len() == 0,
        d.messages@.len() == 0,
        d.groups@.len() == 0,
        d.direct_keys@.len() == 0,
{
    let (agreement, signing) = identity.secret_bytes();
    VaultData {
        display_name: String::from_str(display_name),
        agreement_secret: hex_encode(&agreement),
        signing_secret: hex_encode(&signing),
        node_addr: String::new(),
        friends: Vec::new(),
        messages: Vec::new(),
        groups: Vec::new(),
        direct_keys: Vec::new(),
    }
}

/// The header and sealed body of a vault file: the salt in hex and the hex of the data
/// sealed under the vault key. It fails, with `CryptoError::Rng`, only when the system
/// random source cannot supply a nonce.
pub fn seal_vault(key: &SymmetricKey, salt: &[u8], plain: &[u8]) -> (r: Result<(String, String), crate::crypto::CryptoError>)
    requires
        chacha_plaintext_ok(plain@.len()),
        salt@.len() <= usize::MAX / 2,
        plain@.len() + 28 <= usize::MAX / 2,
    ensures
        match r {
            Ok(hs) => {
                &&& utf8_bytes(hs.0@) == hex_encode_spec(salt@)
                &&& exists|sealed: Seq<u8>|
                    utf8_bytes(hs.1@) == hex_encode_spec(sealed) && open_spec(key@, sealed, vault_aad())
                        == Ok::<Seq<u8>, crate::crypto::CryptoError>(plain@)
            },
            Err(e) => e == crate::crypto::CryptoError::Rng,
        },
{
    let aad = vault_aad_bytes();
    let sealed = match seal(key, plain, &aad) {
        Ok(x) => x,
        Err(e) => return Err(e),
    };
    let salt_hex = hex_encode(salt);
    let sealed_hex = hex_encode(sealed.as_slice());
    Ok((salt_hex, sealed_hex))
}

/// What unlocking a vault gives for a password and the file's salt and sealed body (both
/// hex): the vault key and the plaintext, or the error in the order the checks run
/// (`bad salt`, the key derivation, `bad sealed`, a wrong password).
pub open spec fn unlock_ok(
    password: Seq<u8>,
    salt_hex: Seq<u8>,
    sealed_hex: Seq<u8>,
    r: Result<(SymmetricKey, Vec<u8>), CoreError>,
) -> bool {
    match hex_decode_spec(salt_hex) {
        None => r matches Err(e) && storage_error(e, "bad salt"@),
        Some(salt) => if !argon2_inputs_ok(password.len(), salt.len()) {
            r matches Err(e) && reports(e, crate::crypto::CryptoError::Kdf)
        } else {
            match hex_decode_spec(sealed_hex) {
                None => r matches Err(e) && storage_error(e, "bad sealed"@),
                Some(sealed) => match open_spec(vault_key_spec(password, salt), sealed, vault_aad()) {
                    Ok(plain) => r matches Ok(kp) && kp.0@ == vault_key_spec(password, salt) && kp.1@
                        == plain,
                    Err(_) => r == Err::<(SymmetricKey, Vec<u8>), CoreError>(CoreError::BadPassword),
                },
            }
        },
    }
}

/// Unlock a vault file's contents with the password: derive the key from the salt and
/// open the sealed body. A body that does not open means a wrong password.
pub fn open_vault(password: &str, salt_hex: &str, sealed_hex: &str) -> (r: Result<(SymmetricKey, Vec<u8>), CoreError>)
    ensures
        unlock_ok(utf8_bytes(password@), utf8_bytes(salt_hex@), utf8_bytes(sealed_hex@), r),
{
    let salt = match hex_decode(salt_hex) {
        Some(s) => s,
        None => return Err(CoreError::Storage(String::from_str("bad salt"))),
    };
    let key = match derive_vault_key(password.as_bytes(), salt.as_slice()) {
        Ok(k) => k,
        Err(e) => return Err(from_crypto(e)),
    };
    let sealed = match hex_decode(sealed_hex) {
        Some(s) => s,
        None => return Err(CoreError::Storage(String::from_str("bad sealed"))),
    };
    let aad = vault_aad_bytes();
    match open(&key, sealed.as_slice(), &aad) {
        Ok(plain) => Ok((key, plain)),
        Err(_) => Err(CoreError::BadPassword),
    }
}

/// A vault sealed under the key of a password and salt opens with that password: unlock
/// gives back the key and exactly the sealed contents.
pub proof fn lemma_unlock_opens_sealed(password: Seq<u8>, salt: Seq<u8>, sealed: Seq<u8>, plain: Seq<u8>, r: Result<(SymmetricKey, Vec<u8>), CoreError>)
    requires
        argon2_inputs_ok(password.len(), salt.len()),
        open_spec(vault_key_spec(password, salt), sealed, vault_aad()) == Ok::<Seq<u8>, crate::crypto::CryptoError>(plain),
        unlock_ok(password, hex_encode_spec(salt), hex_encode_spec(sealed), r),
    ensures
        r matches Ok(kp) && kp.0@ == vault_key_spec(password, salt) && kp.1@ == plain,
{
    crate::hexcode::lemma_hex_roundtrip(salt);
    crate::hexcode::lemma_hex_roundtrip(sealed);
}

} // verus!
