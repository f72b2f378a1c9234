//! Safety numbers: a human-comparable fingerprint of two identities, derived from both
//! signing public keys in an order-independent way so both sides compute the same value.

use vstd::prelude::*;

use super::primitives::{sha256, sha256_digest};
use crate::hexcode::{dec_padded, lemma_dec_padded_digits, pow10, push_padded_decimal};
use crate::text::{all_ascii, bytes_lex_le, lemma_ascii_valid_utf8, lemma_lex_antisymmetric, lemma_lex_total, lex_le, push_bytes, string_from_valid_utf8, utf8_bytes};

verus! {

/// The domain-separation prefix, `seqr-safety-v1`.
pub open spec fn safety_domain() -> Seq<u8> {
    seq![115u8, 101, 113, 114, 45, 115, 97, 102, 101, 116, 121, 45, 118, 49]
}

/// The big-endian `u32` in bytes `4i .. 4i+4` of `d`.
pub open spec fn be_u32_at(d: Seq<u8>, i: int) -> nat {
    (((d[4 * i] as nat * 256 + d[4 * i + 1] as nat) * 256 + d[4 * i + 2] as nat) * 256 + d[4 * i
        + 3] as nat)
}

/// Group `i` of a safety number: the `i`-th big-endian `u32` of the digest modulo
/// 100000, as five digits.
pub open spec fn safety_group(d: Seq<u8>, i: int) -> Seq<u8> {
    dec_padded(be_u32_at(d, i) % 100000, 5)
}

/// The first `n` groups of the digest `d`, separated by single spaces.
pub open spec fn safety_groups(d: Seq<u8>, n: nat) -> Seq<u8>
    decreases n,
{
    if n == 0 {
        Seq::empty()
    } else if n == 1 {
        safety_group(d, 0)
    } else {
        safety_groups(d, (n - 1) as nat) + seq![32u8] + safety_group(d, n - 1)
    }
}

/// The two keys in canonical order: the lexicographically smaller first.
pub open spec fn ordered_pair(a: Seq<u8>, b: Seq<u8>) -> (Seq<u8>, Seq<u8>) {
    if lex_le(a, b) {
        (a, b)
    } else {
        (b, a)
    }
}

/// The safety number of two signing public keys, as bytes.
pub open spec fn safety_number_spec(a: Seq<u8>, b: Seq<u8>) -> Seq<u8> {
    let (lo, hi) = ordered_pair(a, b);
    safety_groups(sha256_digest(safety_domain() + lo + hi), 6)
}

/// Six space-separated groups of five ASCII digits.
pub open spec fn is_six_five_digit_groups(t: Seq<u8>) -> bool {
    &&& t.len() == 35
    &&& forall|i: int| 0 <= i < 35 ==> (#[trigger] (i % 6) == 5 <==> t[i] == 32u8)
    &&& forall|i: int| 0 <= i < 35 && i % 6 != 5 ==> 48 <= #[trigger] t[i] <= 57
}

/// The safety number does not depend on the order of the two keys.
pub proof fn lemma_safety_number_order_independent(a: Seq<u8>, b: Seq<u8>)
    ensures
        safety_number_spec(a, b) == safety_number_spec(b, a),
{
    lemma_lex_total(a, b);
    if lex_le(a, b) && lex_le(b, a) {
        lemma_lex_antisymmetric(a, b);
    }
}

/// Every group has exactly five digits.
pub proof fn lemma_safety_group_shape(d: Seq<u8>, i: int)
    ensures
        safety_group(d, i).len() == 5,
        forall|k: int| 0 <= k < 5 ==> 48 <= #[trigger] safety_group(d, i)[k] <= 57,
{
    reveal_with_fuel(pow10, 6);
    assert(pow10(5) == 100000);
    lemma_dec_padded_digits(be_u32_at(d, i) % 100000, 5);
}

/// The first `n >= 1` groups are `6n - 1` bytes: digits, with a space after every fifth.
pub proof fn lemma_safety_groups_shape(d: Seq<u8>, n: nat)
    requires
        n >= 1,
    ensures
        safety_groups(d, n).len() == 6 * n - 1,
        forall|i: int| 0 <= i < 6 * n - 1 ==> (#[trigger] (i % 6) == 5 <==> safety_groups(d, n)[i] == 32u8),
        forall|i: int| 0 <= i < 6 * n - 1 && i % 6 != 5 ==> 48 <= #[trigger] safety_groups(d, n)[i] <= 57,
    decreases n,
{
    lemma_safety_group_shape(d, n - 1);
    if n > 1 {
        lemma_safety_groups_shape(d, (n - 1) as nat);
        let prev = safety_groups(d, (n - 1) as nat);
        let g = safety_group(d, n - 1);
        let t = safety_groups(d, n);
        assert(t == prev + seq![32u8] + g);
        assert forall|i: int| 0 <= i < 6 * n - 1 implies (#[trigger] (i % 6) == 5 <==> t[i] == 32u8) by {
            if i < 6 * n - 7 {
                assert(t[i] == prev[i]);
            } else if i == 6 * n - 7 {
                assert(t[i] == 32u8);
            } else {
                assert(t[i] == g[i - (6 * n - 6)]);
            }
        }
        assert forall|i: int| 0 <= i < 6 * n - 1 && i % 6 != 5 implies 48 <= #[trigger] t[i] <= 57 by {
            if i < 6 * n - 7 {
                assert(t[i] == prev[i]);
            } else {
                assert(t[i] == g[i - (6 * n - 6)]);
            }
        }
    }
}

/// Every safety number is six space-separated groups of five digits.
pub proof fn lemma_safety_number_format(a: Seq<u8>, b: Seq<u8>)
    ensures
        is_six_five_digit_groups(safety_number_spec(a, b)),
{
    let (lo, hi) = ordered_pair(a, b);
    lemma_safety_groups_shape(sha256_digest(safety_domain() + lo + hi), 6);
}

/// Group `i < n` of the first `n` groups sits at bytes `6i .. 6i + 5`.
proof fn lemma_safety_groups_at(d: Seq<u8>, n: nat, i: int)
    requires
        0 <= i < n,
    ensures
        safety_groups(d, n).subrange(6 * i, 6 * i + 5) == safety_group(d, i),
    decreases n,
{
    lemma_safety_group_shape(d, n - 1);
    if n > 1 {
        lemma_safety_groups_shape(d, (n - 1) as nat);
        let prev = safety_groups(d, (n - 1) as nat);
        let t = safety_groups(d, n);
        assert(t == prev + seq![32u8] + safety_group(d, n - 1));
        if i < n - 1 {
            lemma_safety_groups_at(d, (n - 1) as nat, i);
            assert(t.subrange(6 * i, 6 * i + 5) =~= prev.subrange(6 * i, 6 * i + 5));
        } else {
            assert(t.subrange(6 * i, 6 * i + 5) =~= safety_group(d, n - 1));
        }
    } else {
        assert(safety_groups(d, n).subrange(0, 5) =~= safety_group(d, 0));
    }
}

/// What a safety number is: with `a` the smaller of the two keys in byte order, take
/// the SHA-256 digest of `seqr-safety-v1`, then `a`, then `b`; group `i` (of six,
/// separated by spaces) is the `i`-th big-endian `u32` of the digest modulo 100000 in
/// five digits. Both keys enter the digest, in that order, and either order of the
/// arguments gives the same number.
pub proof fn lemma_safety_number_digest(a: Seq<u8>, b: Seq<u8>)
    requires
        lex_le(a, b),
    ensures
        ({
            let d = sha256_digest(
                seq![115u8, 101, 113, 114, 45, 115, 97, 102, 101, 116, 121, 45, 118, 49] + a + b,
            );
            &&& safety_number_spec(a, b).len() == 35
            &&& safety_number_spec(b, a) == safety_number_spec(a, b)
            &&& forall|i: int|
                0 <= i < 6 ==> #[trigger] safety_number_spec(a, b).subrange(6 * i, 6 * i + 5) == dec_padded(
                    ((((d[4 * i] as nat * 256 + d[4 * i + 1] as nat) * 256 + d[4 * i + 2] as nat) * 256 + d[4 * i
                        + 3] as nat) % 100000) as nat,
                    5,
                )
            &&& forall|i: int| 0 <= i < 5 ==> #[trigger] safety_number_spec(a, b)[6 * i + 5] == 32u8
        }),
{
    let d = sha256_digest(seq![115u8, 101, 113, 114, 45, 115, 97, 102, 101, 116, 121, 45, 118, 49] + a + b);
    assert(safety_domain() == seq![115u8, 101, 113, 114, 45, 115, 97, 102, 101, 116, 121, 45, 118, 49]);
    assert(ordered_pair(a, b) == (a, b));
    assert(safety_number_spec(a, b) == safety_groups(d, 6));
    lemma_safety_number_order_independent(a, b);
    lemma_safety_groups_shape(d, 6);
    assert forall|i: int| 0 <= i < 6 implies #[trigger] safety_number_spec(a, b).subrange(6 * i, 6 * i + 5) == dec_padded(
        ((((d[4 * i] as nat * 256 + d[4 * i + 1] as nat) * 256 + d[4 * i + 2] as nat) * 256 + d[4 * i + 3] as nat)
            % 100000) as nat,
        5,
    ) by {
        lemma_safety_groups_at(d, 6, i);
    }
    assert forall|i: int| 0 <= i < 5 implies #[trigger] safety_number_spec(a, b)[6 * i + 5] == 32u8 by {
        assert((6 * i + 5) % 6 == 5);
    }
}

/// Compute the safety number for two Ed25519 signing public keys, as six space-
/// separated five-digit groups.
pub fn safety_number(a: &[u8; 32], b: &[u8; 32]) -> (s: String)
    ensures
        utf8_bytes(s@) == safety_number_spec(a@, b@),
{
    let a_first = bytes_lex_le(a, b);
    let mut data: Vec<u8> = Vec::new();
    let domain: [u8; 14] = [115u8, 101, 113, 114, 45, 115, 97, 102, 101, 116, 121, 45, 118, 49];
    assert(domain@ =~= safety_domain());
    push_bytes(&mut data, &domain);
    if a_first {
        push_bytes(&mut data, a);
        push_bytes(&mut data, b);
    } else {
        push_bytes(&mut data, b);
        push_bytes(&mut data, a);
    }
    let digest = sha256(data.as_slice());
    let ghost d = digest@;
    assert(d == sha256_digest(safety_domain() + ordered_pair(a@, b@).0 + ordered_pair(a@, b@).1));
    let mut out: Vec<u8> = Vec::new();
    let mut i: usize = 0;
    while i < 6
        invariant
            0 <= i <= 6,
            d == digest@,
            digest@.len() == 32,
            out@ == safety_groups(d, i as nat),
        decreases 6 - i,
    {
        if i > 0 {
            out.push(32u8);
        }
        let v: u64 = (((digest[4 * i] as u64 * 256 + digest[4 * i + 1] as u64) * 256
            + digest[4 * i + 2] as u64) * 256 + digest[4 * i + 3] as u64);
        assert(v == be_u32_at(d, i as int));
        push_padded_decimal(&mut out, v % 100000, 5);
        proof {
            if i == 0 {
                assert(out@ =~= safety_groups(d, 1));
            } else {
                assert(out@ =~= safety_groups(d, (i + 1) as nat));
            }
        }
        i = i + 1;
    }
    proof {
        lemma_safety_groups_shape(d, 6);
        assert(all_ascii(out@)) by {
            assert forall|k: int| 0 <= k < out@.len() implies #[trigger] out@[k] < 128 by {
                if k % 6 != 5 {
                } else {
                }
            }
        }
        lemma_ascii_valid_utf8(out@);
    }
    string_from_valid_utf8(out)
}

} // verus!
