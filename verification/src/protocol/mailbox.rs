//! Mailbox protocol: the HTTP contract between a client and the store-and-forward
//! helper. Pull and ack are authenticated by a signature over a canonical string that
//! includes a client timestamp; push is open.

use vstd::prelude::*;

use crate::hexcode::{dec, push_decimal};
use super::frame_signing_spec;
use crate::text::{all_ascii, ascii_chars, lemma_ascii_chars_utf8, lemma_ascii_char_bytes, lemma_split_last_sep, push_str_bytes, strings_bytes, utf8_bytes};

verus! {

/// `POST /v1/push`: drop one opaque payload for `to` into the mailbox.
#[derive(Debug, Clone, PartialEq, Eq)]
pub struct PushRequest {
    /// Recipient identity (Ed25519 public key, hex).
    pub to: String,
    /// Opaque sealed payload.
    pub payload: String,
}

/// Answer to a push: the id assigned to the parked message.
#[derive(Debug, Clone, PartialEq, Eq)]
pub struct PushResponse {
    pub id: String,
}

/// `POST /v1/pull`: fetch parked messages for `identity`, signed by its key.
#[derive(Debug, Clone, PartialEq, Eq)]
pub struct PullRequest {
    /// The caller's identity (Ed25519 public key, hex).
    pub identity: String,
    /// Unix-millis timestamp.
    pub ts: u64,
    /// Ed25519 signature over the pull signing bytes, hex.
    pub signature: String,
}

/// The bytes a pull request's signature covers.
pub open spec fn pull_signing_spec(identity: Seq<u8>, ts: u64) -> Seq<u8> {
    utf8_bytes("seqr/pull/v1|"@) + identity + utf8_bytes("|"@) + dec(ts as nat)
}

impl PullRequest {
    /// `seqr/pull/v1|{identity}|{ts}`.
    pub fn signing_bytes(identity: &str, ts: u64) -> (b: Vec<u8>)
        ensures
            b@ == pull_signing_spec(utf8_bytes(identity@), ts),
    {
        let mut out: Vec<u8> = Vec::new();
        push_str_bytes(&mut out, "seqr/pull/v1|");
        push_str_bytes(&mut out, identity);
        push_str_bytes(&mut out, "|");
        push_decimal(&mut out, ts);
        out
    }
}

/// One parked message.
#[derive(Debug, Clone, PartialEq, Eq)]
pub struct PulledMessage {
    pub id: String,
    pub payload: String,
}

/// Answer to a pull.
#[derive(Debug, Clone, PartialEq, Eq)]
pub struct PullResponse {
    pub messages: Vec<PulledMessage>,
}

/// `POST /v1/ack`: delete delivered messages. Same identity proof as pull.
#[derive(Debug, Clone, PartialEq, Eq)]
pub struct AckRequest {
    pub identity: String,
    pub ts: u64,
    pub signature: String,
    pub ids: Vec<String>,
}

/// The byte strings joined with `,`.
pub open spec fn join_comma(items: Seq<Seq<u8>>) -> Seq<u8>
    decreases items.len(),
{
    if items.len() == 0 {
        Seq::empty()
    } else if items.len() == 1 {
        items[0]
    } else {
        join_comma(items.drop_last()) + utf8_bytes(","@) + items.last()
    }
}

/// The bytes an ack request's signature covers.
pub open spec fn ack_signing_spec(identity: Seq<u8>, ts: u64, ids: Seq<Seq<u8>>) -> Seq<u8> {
    utf8_bytes("seqr/ack/v1|"@) + identity + utf8_bytes("|"@) + dec(ts as nat) + utf8_bytes("|"@)
        + join_comma(ids)
}

impl AckRequest {
    /// `seqr/ack/v1|{identity}|{ts}|{ids joined by ','}`.
    pub fn signing_bytes(identity: &str, ts: u64, ids: &[String]) -> (b: Vec<u8>)
        ensures
            b@ == ack_signing_spec(utf8_bytes(identity@), ts, strings_bytes(ids@)),
    {
        let mut out: Vec<u8> = Vec::new();
        push_str_bytes(&mut out, "seqr/ack/v1|");
        push_str_bytes(&mut out, identity);
        push_str_bytes(&mut out, "|");
        push_decimal(&mut out, ts);
        push_str_bytes(&mut out, "|");
        let ghost head = out@;
        let mut i: usize = 0;
        while i < ids.len()
            invariant
                0 <= i <= ids@.len(),
                out@ == head + join_comma(strings_bytes(ids@.subrange(0, i as int))),
            decreases ids@.len() - i,
        {
            if i > 0 {
                push_str_bytes(&mut out, ",");
            }
            push_str_bytes(&mut out, ids[i].as_str());
            proof {
                let prev = strings_bytes(ids@.subrange(0, i as int));
                let next = strings_bytes(ids@.subrange(0, i + 1));
                assert(next.drop_last() =~= prev);
                assert(next.last() == utf8_bytes(ids@[i as int]@));
                if i == 0 {
                    assert(prev.len() == 0);
                    assert(out@ =~= head + join_comma(next));
                } else {
                    assert(out@ =~= head + join_comma(next));
                }
            }
            i = i + 1;
        }
        assert(ids@.subrange(0, ids@.len() as int) =~= ids@);
        out
    }
}

/// Message ids as an ack lists them: none empty, none holding a `,`.
pub open spec fn plain_ids(ids: Seq<Seq<u8>>) -> bool {
    forall|i: int| 0 <= i < ids.len() ==> (#[trigger] ids[i]).len() > 0 && !ids[i].contains(44u8)
}

proof fn lemma_comma_bytes()
    ensures
        utf8_bytes(","@) == seq![44u8],
{
    reveal_strlit(",");
    lemma_ascii_char_bytes(","@, 44u8);
}

/// The joined list is empty exactly when the list is, and holds a `,` exactly when the
/// list has two or more ids.
proof fn lemma_join_shape(ids: Seq<Seq<u8>>)
    requires
        plain_ids(ids),
    ensures
        join_comma(ids).len() == 0 <==> ids.len() == 0,
        join_comma(ids).contains(44u8) <==> ids.len() >= 2,
    decreases ids.len(),
{
    lemma_comma_bytes();
    if ids.len() == 1 {
        assert(ids[0].len() > 0 && !ids[0].contains(44u8));
    } else if ids.len() >= 2 {
        let init = ids.drop_last();
        assert(plain_ids(init)) by {
            assert forall|i: int| 0 <= i < init.len() implies (#[trigger] init[i]).len() > 0 && !init[i].contains(44u8) by {
                assert(init[i] == ids[i]);
            }
        }
        lemma_join_shape(init);
        let j = join_comma(ids);
        assert(j == join_comma(init) + seq![44u8] + ids.last());
        assert(j[join_comma(init).len() as int] == 44u8);
    }
}

/// Lists of plain ids join to the same text only when they are the same list.
proof fn lemma_join_injective(a: Seq<Seq<u8>>, b: Seq<Seq<u8>>)
    requires
        plain_ids(a),
        plain_ids(b),
        join_comma(a) == join_comma(b),
    ensures
        a == b,
    decreases a.len(),
{
    lemma_join_shape(a);
    lemma_join_shape(b);
    lemma_comma_bytes();
    if a.len() == 0 {
        assert(a =~= b);
    } else if a.len() == 1 {
        assert(b.len() == 1);
        assert(a =~= b);
    } else {
        let ai = a.drop_last();
        let bi = b.drop_last();
        assert(plain_ids(ai)) by {
            assert forall|i: int| 0 <= i < ai.len() implies (#[trigger] ai[i]).len() > 0 && !ai[i].contains(44u8) by {
                assert(ai[i] == a[i]);
            }
        }
        assert(plain_ids(bi)) by {
            assert forall|i: int| 0 <= i < bi.len() implies (#[trigger] bi[i]).len() > 0 && !bi[i].contains(44u8) by {
                assert(bi[i] == b[i]);
            }
        }
        assert(a[a.len() - 1].len() > 0 && !a.last().contains(44u8));
        assert(b[b.len() - 1].len() > 0 && !b.last().contains(44u8));
        lemma_split_last_sep(join_comma(ai), a.last(), join_comma(bi), b.last(), 44u8);
        lemma_join_injective(ai, bi);
        assert(a =~= ai.push(a.last()));
        assert(b =~= bi.push(b.last()));
    }
}

/// An ack's signed bytes determine the ids it acknowledges: for one identity and
/// timestamp, two lists of non-empty, comma-free ids sign the same bytes exactly when
/// they are the same list.
pub proof fn lemma_ack_signing_injective(identity: Seq<u8>, ts: u64, ids1: Seq<Seq<u8>>, ids2: Seq<Seq<u8>>)
    requires
        plain_ids(ids1),
        plain_ids(ids2),
    ensures
        ack_signing_spec(identity, ts, ids1) == ack_signing_spec(identity, ts, ids2) <==> ids1 == ids2,
{
    let p = utf8_bytes("seqr/ack/v1|"@) + identity + utf8_bytes("|"@) + dec(ts as nat) + utf8_bytes("|"@);
    if ack_signing_spec(identity, ts, ids1) == ack_signing_spec(identity, ts, ids2) {
        assert(join_comma(ids1) =~= ack_signing_spec(identity, ts, ids1).skip(p.len() as int));
        assert(join_comma(ids2) =~= ack_signing_spec(identity, ts, ids2).skip(p.len() as int));
        lemma_join_injective(ids1, ids2);
    }
}

/// The bytes of the `seqr/pull/v1|` tag.
proof fn lemma_pull_tag_bytes()
    ensures
        utf8_bytes("seqr/pull/v1|"@) == seq![115u8, 101u8, 113u8, 114u8, 47u8, 112u8, 117u8, 108u8, 108u8, 47u8, 118u8, 49u8, 124u8],
{
    reveal_strlit("seqr/pull/v1|");
    let b: Seq<u8> = seq![115u8, 101u8, 113u8, 114u8, 47u8, 112u8, 117u8, 108u8, 108u8, 47u8, 118u8, 49u8, 124u8];
    assert(all_ascii(b));
    assert("seqr/pull/v1|"@ =~= ascii_chars(b));
    lemma_ascii_chars_utf8(b);
}

/// The bytes of the `seqr/ack/v1|` tag.
proof fn lemma_ack_tag_bytes()
    ensures
        utf8_bytes("seqr/ack/v1|"@) == seq![115u8, 101u8, 113u8, 114u8, 47u8, 97u8, 99u8, 107u8, 47u8, 118u8, 49u8, 124u8],
{
    reveal_strlit("seqr/ack/v1|");
    let b: Seq<u8> = seq![115u8, 101u8, 113u8, 114u8, 47u8, 97u8, 99u8, 107u8, 47u8, 118u8, 49u8, 124u8];
    assert(all_ascii(b));
    assert("seqr/ack/v1|"@ =~= ascii_chars(b));
    lemma_ascii_chars_utf8(b);
}

/// The bytes of the `seqr/frame/v1|` tag.
proof fn lemma_frame_tag_bytes()
    ensures
        utf8_bytes("seqr/frame/v1|"@) == seq![115u8, 101u8, 113u8, 114u8, 47u8, 102u8, 114u8, 97u8, 109u8, 101u8, 47u8, 118u8, 49u8, 124u8],
{
    reveal_strlit("seqr/frame/v1|");
    let b: Seq<u8> = seq![115u8, 101u8, 113u8, 114u8, 47u8, 102u8, 114u8, 97u8, 109u8, 101u8, 47u8, 118u8, 49u8, 124u8];
    assert(all_ascii(b));
    assert("seqr/frame/v1|"@ =~= ascii_chars(b));
    lemma_ascii_chars_utf8(b);
}

/// The three kinds of signed bytes never coincide: a pull's, an ack's and a frame's
/// each begin with their own tag, so a signature over one can never be replayed as a
/// signature over another.
pub proof fn lemma_signing_domains_distinct(
    pull_identity: Seq<u8>,
    pull_ts: u64,
    ack_identity: Seq<u8>,
    ack_ts: u64,
    ids: Seq<Seq<u8>>,
    c: Seq<u8>,
    e: u64,
    s: Seq<u8>,
    q: u64,
    x: Seq<u8>,
)
    ensures
        pull_signing_spec(pull_identity, pull_ts) != ack_signing_spec(ack_identity, ack_ts, ids),
        pull_signing_spec(pull_identity, pull_ts) != frame_signing_spec(c, e, s, q, x),
        ack_signing_spec(ack_identity, ack_ts, ids) != frame_signing_spec(c, e, s, q, x),
{
    lemma_pull_tag_bytes();
    lemma_ack_tag_bytes();
    lemma_frame_tag_bytes();
    let p = pull_signing_spec(pull_identity, pull_ts);
    let a = ack_signing_spec(ack_identity, ack_ts, ids);
    let f = frame_signing_spec(c, e, s, q, x);
    assert(p[5] == 112u8);
    assert(a[5] == 97u8);
    assert(f[5] == 102u8);
}

} // verus!
