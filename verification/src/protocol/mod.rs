//! Wire protocol: the plain data exchanged by peers and the mailbox, and the canonical
//! signing strings, the exact bytes a signature covers, so that signer and verifier
//! never disagree about what was signed.

pub mod mailbox;

use vstd::prelude::*;

use crate::hexcode::{dec, digits_value, lemma_dec_digits, lemma_dec_value, push_decimal};
use crate::text::{lemma_ascii_char_bytes, lemma_split_first_sep, push_str_bytes, utf8_bytes};

verus! {

/// The unit of adding a friend: only public data, safe to transmit by any channel.
#[derive(Debug, Clone, PartialEq, Eq)]
pub struct ProfileBlob {
    /// Schema version.
    pub v: u8,
    pub display_name: String,
    /// X25519 public key (key agreement), hex.
    pub agreement_public: String,
    /// Ed25519 public key (signature verification), hex.
    pub signing_public: String,
    /// Transport address used to reach this peer (opaque ticket string).
    pub node_addr: String,
}

impl ProfileBlob {
    /// The current schema version.
    pub const VERSION: u8 = 1;
}

/// A sealed, signed application message as it travels between peers and through the
/// mailbox. The ciphertext is opaque to everyone but the conversation members.
#[derive(Debug, Clone, PartialEq, Eq)]
pub struct MessageFrame {
    pub conversation_id: String,
    /// Key epoch this frame was sealed under.
    pub epoch: u64,
    /// Ed25519 public key of the sender, hex.
    pub sender: String,
    /// Per-sender sequence number (ordering, replay detection).
    pub seq: u64,
    /// Detached Ed25519 signature over the frame's signing bytes, hex (64 bytes).
    pub signature: String,
    /// `nonce || ChaCha20-Poly1305 ciphertext`, hex.
    pub ciphertext: String,
}

/// The bytes a frame's signature covers.
pub open spec fn frame_signing_spec(
    conversation_id: Seq<u8>,
    epoch: u64,
    sender: Seq<u8>,
    seq: u64,
    ciphertext_hex: Seq<u8>,
) -> Seq<u8> {
    utf8_bytes("seqr/frame/v1|"@) + conversation_id + utf8_bytes("|"@) + dec(epoch as nat)
        + utf8_bytes("|"@) + sender + utf8_bytes("|"@) + dec(seq as nat) + utf8_bytes("|"@)
        + ciphertext_hex
}

impl MessageFrame {
    /// Canonical bytes the sender signs and the receiver verifies:
    /// `seqr/frame/v1|{conversation_id}|{epoch}|{sender}|{seq}|{ciphertext_hex}`.
    pub fn signing_bytes(
        conversation_id: &str,
        epoch: u64,
        sender: &str,
        seq: u64,
        ciphertext_hex: &str,
    ) -> (b: Vec<u8>)
        ensures
            b@ == frame_signing_spec(
                utf8_bytes(conversation_id@),
                epoch,
                utf8_bytes(sender@),
                seq,
                utf8_bytes(ciphertext_hex@),
            ),
    {
        let mut out: Vec<u8> = Vec::new();
        push_str_bytes(&mut out, "seqr/frame/v1|");
        push_str_bytes(&mut out, conversation_id);
        push_str_bytes(&mut out, "|");
        push_decimal(&mut out, epoch);
        push_str_bytes(&mut out, "|");
        push_str_bytes(&mut out, sender);
        push_str_bytes(&mut out, "|");
        push_decimal(&mut out, seq);
        push_str_bytes(&mut out, "|");
        push_str_bytes(&mut out, ciphertext_hex);
        out
    }
}

/// A group key delivered to one member, sealed under the pairwise key between the
/// distributor and that member.
#[derive(Debug, Clone, PartialEq, Eq)]
pub struct KeyEnvelope {
    pub conversation_id: String,
    pub epoch: u64,
    /// Who minted and distributed this key (Ed25519 public, hex).
    pub originator: String,
    /// `nonce || ciphertext` of the 32-byte group key, hex.
    pub sealed_key: String,
}

/// The decimal digits of a number hold no `|`.
proof fn lemma_dec_no_bar(n: nat)
    ensures
        !dec(n).contains(124u8),
{
    lemma_dec_digits(n);
    if dec(n).contains(124u8) {
        let k = choose|k: int| 0 <= k < dec(n).len() && dec(n)[k] == 124u8;
        assert(48 <= dec(n)[k] <= 57);
    }
}

/// The bytes of `|`.
pub proof fn lemma_bar_bytes()
    ensures
        utf8_bytes("|"@) == seq![124u8],
{
    reveal_strlit("|");
    lemma_ascii_char_bytes("|"@, 124u8);
}

/// A frame's signed bytes determine its fields: where neither conversation id nor
/// sender holds a `|`, two frames sign the same bytes exactly when conversation id,
/// epoch, sender, sequence number and ciphertext are all equal, so no field can be
/// changed or swapped without changing what is signed.
pub proof fn lemma_frame_signing_injective(
    c1: Seq<u8>,
    e1: u64,
    s1: Seq<u8>,
    q1: u64,
    x1: Seq<u8>,
    c2: Seq<u8>,
    e2: u64,
    s2: Seq<u8>,
    q2: u64,
    x2: Seq<u8>,
)
    requires
        !c1.contains(124u8),
        !c2.contains(124u8),
        !s1.contains(124u8),
        !s2.contains(124u8),
    ensures
        frame_signing_spec(c1, e1, s1, q1, x1) == frame_signing_spec(c2, e2, s2, q2, x2) <==> (c1 == c2 && e1 == e2
            && s1 == s2 && q1 == q2 && x1 == x2),
{
    if frame_signing_spec(c1, e1, s1, q1, x1) == frame_signing_spec(c2, e2, s2, q2, x2) {
        let r1 = frame_fields(c1, e1, s1, q1, x1);
        let r2 = frame_fields(c2, e2, s2, q2, x2);
        assert(r1 == r2) by {
            lemma_frame_fields(c1, e1, s1, q1, x1);
            lemma_frame_fields(c2, e2, s2, q2, x2);
            let p = utf8_bytes("seqr/frame/v1|"@);
            assert(r1 =~= frame_signing_spec(c1, e1, s1, q1, x1).skip(p.len() as int));
            assert(r2 =~= frame_signing_spec(c2, e2, s2, q2, x2).skip(p.len() as int));
        }
        lemma_frame_fields_injective(c1, e1, s1, q1, x1, c2, e2, s2, q2, x2);
    }
}

/// The fields of a frame's signed bytes, after the tag, joined by `|`.
spec fn frame_fields(c: Seq<u8>, e: u64, s: Seq<u8>, q: u64, x: Seq<u8>) -> Seq<u8> {
    let bar = seq![124u8];
    c + bar + (dec(e as nat) + bar + (s + bar + (dec(q as nat) + bar + x)))
}

proof fn lemma_frame_fields(c: Seq<u8>, e: u64, s: Seq<u8>, q: u64, x: Seq<u8>)
    ensures
        frame_signing_spec(c, e, s, q, x) == utf8_bytes("seqr/frame/v1|"@) + frame_fields(c, e, s, q, x),
{
    lemma_bar_bytes();
    assert(frame_signing_spec(c, e, s, q, x) =~= utf8_bytes("seqr/frame/v1|"@) + frame_fields(c, e, s, q, x));
}

proof fn lemma_frame_fields_injective(
    c1: Seq<u8>,
    e1: u64,
    s1: Seq<u8>,
    q1: u64,
    x1: Seq<u8>,
    c2: Seq<u8>,
    e2: u64,
    s2: Seq<u8>,
    q2: u64,
    x2: Seq<u8>,
)
    requires
        !c1.contains(124u8),
        !c2.contains(124u8),
        !s1.contains(124u8),
        !s2.contains(124u8),
        frame_fields(c1, e1, s1, q1, x1) == frame_fields(c2, e2, s2, q2, x2),
    ensures
        c1 == c2 && e1 == e2 && s1 == s2 && q1 == q2 && x1 == x2,
{
    let bar = seq![124u8];
    let d1 = dec(e1 as nat);
    let d2 = dec(e2 as nat);
    let n1 = dec(q1 as nat);
    let n2 = dec(q2 as nat);
    lemma_dec_no_bar(e1 as nat);
    lemma_dec_no_bar(e2 as nat);
    lemma_dec_no_bar(q1 as nat);
    lemma_dec_no_bar(q2 as nat);
    lemma_split_first_sep(c1, d1 + bar + (s1 + bar + (n1 + bar + x1)), c2, d2 + bar + (s2 + bar + (n2 + bar + x2)), 124u8);
    lemma_split_first_sep(d1, s1 + bar + (n1 + bar + x1), d2, s2 + bar + (n2 + bar + x2), 124u8);
    lemma_split_first_sep(s1, n1 + bar + x1, s2, n2 + bar + x2, 124u8);
    lemma_split_first_sep(n1, x1, n2, x2, 124u8);
    lemma_dec_value(e1 as nat);
    lemma_dec_value(e2 as nat);
    lemma_dec_value(q1 as nat);
    lemma_dec_value(q2 as nat);
}

} // verus!
