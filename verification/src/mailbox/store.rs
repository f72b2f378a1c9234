//! The mailbox's message store: layout `<root>/<identity_hex>/<id>.msg`, where the id's
//! zero-padded millisecond timestamp and arrival counter make file names sort in
//! delivery order. Every identity and id taken from a client is validated as lowercase
//! hex (or the id format) before it becomes a path component, so a path cannot escape
//! the store. The filesystem work itself is done by the caller with the paths computed
//! here.

use vstd::prelude::*;

use crate::crypto::group::generate_group_key;
use crate::hexcode::{all_digits, dec, digits_value, lemma_dec_digits, lemma_dec_value, lemma_dec_len_bound, dec_padded, hex_encode, hex_encode_spec, lemma_dec_padded_digits, pow10, push_padded_decimal};
use crate::protocol::mailbox::PulledMessage;
use crate::text::{
    all_ascii, byte_order, bytes_ends_with, ends_with, lemma_ascii_valid_utf8, lex_le, path_join,
    path_join_spec, push_str_bytes, sort_strings, string_from_valid_utf8, strings_bytes,
    trim_end_ascii, trim_end_spec, utf8_bytes,
};

verus! {

/// A lowercase hex digit (`0-9`, `a-f`).
pub open spec fn is_lower_hex_digit(b: u8) -> bool {
    (48 <= b <= 57) || (97 <= b <= 102)
}

/// Exactly `len` lowercase hex digits.
pub open spec fn is_hex_spec(t: Seq<u8>, len: nat) -> bool {
    &&& t.len() == len
    &&& forall|i: int| 0 <= i < t.len() ==> #[trigger] is_lower_hex_digit(t[i])
}

/// True only for a lowercase-hex string of exactly `len` bytes. Guards every path
/// component derived from client input.
pub fn is_hex(s: &str, len: usize) -> (r: bool)
    ensures
        r == is_hex_spec(utf8_bytes(s@), len as nat),
{
    let b = s.as_bytes();
    if b.len() != len {
        return false;
    }
    let mut i: usize = 0;
    while i < b.len()
        invariant
            b@ == utf8_bytes(s@),
            b@.len() == len,
            0 <= i <= b@.len(),
            forall|k: int| 0 <= k < i ==> #[trigger] is_lower_hex_digit(b@[k]),
        decreases b@.len() - i,
    {
        let c = b[i];
        if !((48 <= c && c <= 57) || (97 <= c && c <= 102)) {
            assert(!is_lower_hex_digit(b@[i as int]));
            return false;
        }
        i = i + 1;
    }
    true
}

/// The ASCII digits `0-9`.
pub open spec fn is_digit(b: u8) -> bool {
    48 <= b <= 57
}

/// The message id format `<13 digits>-<10 digits>-<16 lowercase hex>`: three parts
/// when split at `-`, of exactly those lengths and characters.
pub open spec fn valid_id_spec(t: Seq<u8>) -> bool {
    &&& t.len() == 41
    &&& t[13] == 45u8
    &&& t[24] == 45u8
    &&& forall|i: int| 0 <= i < 13 ==> #[trigger] is_digit(t[i])
    &&& forall|i: int| 14 <= i < 24 ==> #[trigger] is_digit(t[i])
    &&& forall|i: int| 25 <= i < 41 ==> #[trigger] is_lower_hex_digit(t[i])
}

/// Whether `id` has the message id format; checked before an id becomes a path.
pub fn valid_id(id: &str) -> (r: bool)
    ensures
        r == valid_id_spec(utf8_bytes(id@)),
{
    let t = id.as_bytes();
    if t.len() != 41 || t[13] != 45u8 || t[24] != 45u8 {
        return false;
    }
    let mut i: usize = 0;
    while i < 41
        invariant
            t@ == utf8_bytes(id@),
            t@.len() == 41,
            t@[13] == 45u8,
            t@[24] == 45u8,
            0 <= i <= 41,
            forall|k: int| 0 <= k < i && k < 13 ==> #[trigger] is_digit(t@[k]),
            forall|k: int| 14 <= k < i && k < 24 ==> #[trigger] is_digit(t@[k]),
            forall|k: int| 25 <= k < i ==> #[trigger] is_lower_hex_digit(t@[k]),
        decreases 41 - i,
    {
        let c = t[i];
        if i < 13 || (14 <= i && i < 24) {
            if !(48 <= c && c <= 57) {
                assert(!is_digit(t@[i as int]));
                return false;
            }
        } else if i >= 25 {
            if !((48 <= c && c <= 57) || (97 <= c && c <= 102)) {
                assert(!is_lower_hex_digit(t@[i as int]));
                return false;
            }
        }
        i = i + 1;
    }
    true
}

/// The id a message gets: `{millis:013}-{seq:010}-{suffix}`.
pub open spec fn message_id_spec(millis: nat, seq: nat, suffix: Seq<u8>) -> Seq<u8> {
    dec_padded(millis, 13) + seq![45u8] + dec_padded(seq, 10) + seq![45u8] + suffix
}

/// Ids made from in-range timestamps, counters and random suffixes pass `valid_id`.
pub proof fn lemma_message_id_valid(millis: nat, seq: nat, suffix: Seq<u8>)
    requires
        millis < pow10(13),
        seq < pow10(10),
        is_hex_spec(suffix, 16),
    ensures
        valid_id_spec(message_id_spec(millis, seq, suffix)),
{
    lemma_dec_padded_digits(millis, 13);
    lemma_dec_padded_digits(seq, 10);
    let t = message_id_spec(millis, seq, suffix);
    let a = dec_padded(millis, 13);
    let b = dec_padded(seq, 10);
    assert forall|i: int| 0 <= i < 13 implies #[trigger] is_digit(t[i]) by {
        assert(t[i] == a[i]);
    }
    assert forall|i: int| 14 <= i < 24 implies #[trigger] is_digit(t[i]) by {
        assert(t[i] == b[i - 14]);
    }
    assert forall|i: int| 25 <= i < 41 implies #[trigger] is_lower_hex_digit(t[i]) by {
        assert(t[i] == suffix[i - 25]);
    }
}

/// The bytes of the message file suffix.
proof fn lemma_msg_suffix_bytes()
    ensures
        utf8_bytes(".msg"@) == seq![46u8, 109u8, 115u8, 103u8],
{
    reveal_strlit(".msg");
    let c = ".msg"@;
    assert(c.len() == 4);
    assert(c[0] as u32 == 46 && c[1] as u32 == 109 && c[2] as u32 == 115 && c[3] as u32 == 103);
    assert(46u32 & 0x7F == 46 && 109u32 & 0x7F == 109 && 115u32 & 0x7F == 115 && 103u32 & 0x7F == 103) by (bit_vector);
    reveal_with_fuel(vstd::utf8::encode_utf8, 5);
    assert(c.drop_first().drop_first().drop_first().drop_first().len() == 0);
    assert(utf8_bytes(c) =~= seq![46u8, 109u8, 115u8, 103u8]);
}

/// The message file name of an id: `{id}.msg`.
pub open spec fn message_file_spec(id: Seq<u8>) -> Seq<u8> {
    id + utf8_bytes(".msg"@)
}

/// Filesystem-backed message store rooted at a directory.
pub struct Store {
    root: String,
}

impl View for Store {
    type V = Seq<u8>;

    /// The bytes of the root directory path.
    closed spec fn view(&self) -> Seq<u8> {
        utf8_bytes(self.root@)
    }
}

/// The directory holding the messages parked for an identity.
pub open spec fn mailbox_dir_spec(root: Seq<u8>, identity: Seq<u8>) -> Seq<u8> {
    path_join_spec(root, identity)
}

/// The path of one parked message.
pub open spec fn message_path_spec(root: Seq<u8>, identity: Seq<u8>, id: Seq<u8>) -> Seq<u8> {
    path_join_spec(mailbox_dir_spec(root, identity), message_file_spec(id))
}

impl Store {
    /// A store rooted at `root` (the caller creates the directory).
    pub fn new(root: String) -> (s: Store)
        ensures
            s@ == utf8_bytes(root@),
    {
        Store { root }
    }

    /// The root directory.
    pub fn root(&self) -> (r: &str)
        ensures
            utf8_bytes(r@) == self@,
    {
        self.root.as_str()
    }

    /// `<root>/<identity>`.
    pub fn mailbox_dir(&self, identity: &str) -> (p: String)
        ensures
            utf8_bytes(p@) == mailbox_dir_spec(self@, utf8_bytes(identity@)),
    {
        path_join(self.root.as_str(), identity)
    }

    /// `<root>/<identity>/<id>.msg`.
    pub fn message_path(&self, identity: &str, id: &str) -> (p: String)
        ensures
            utf8_bytes(p@) == message_path_spec(self@, utf8_bytes(identity@), utf8_bytes(id@)),
    {
        let dir = self.mailbox_dir(identity);
        let file = message_file_name(id);
        path_join(dir.as_str(), file.as_str())
    }

    /// The paths to delete for an ack: those of the listed ids that have the message id
    /// format, in order; any other id is skipped.
    pub fn ack_paths(&self, identity: &str, ids: &[String]) -> (paths: Vec<String>)
        ensures
            paths@.len() == ids@.filter(|id: String| valid_id_spec(utf8_bytes(id@))).len(),
            forall|k: int|
                0 <= k < paths@.len() ==> utf8_bytes(#[trigger] paths@[k]@) == message_path_spec(
                    self@,
                    utf8_bytes(identity@),
                    utf8_bytes(ids@.filter(|id: String| valid_id_spec(utf8_bytes(id@)))[k]@),
                ),
    {
        let ghost pred = |id: String| valid_id_spec(utf8_bytes(id@));
        let mut out: Vec<String> = Vec::new();
        let mut i: usize = 0;
        while i < ids.len()
            invariant
                0 <= i <= ids@.len(),
                pred == (|id: String| valid_id_spec(utf8_bytes(id@))),
                out@.len() == ids@.subrange(0, i as int).filter(pred).len(),
                forall|k: int|
                    0 <= k < out@.len() ==> utf8_bytes(#[trigger] out@[k]@) == message_path_spec(
                        self@,
                        utf8_bytes(identity@),
                        utf8_bytes(ids@.subrange(0, i as int).filter(pred)[k]@),
                    ),
            decreases ids@.len() - i,
        {
            proof {
                let s = ids@.subrange(0, i + 1);
                assert(s.drop_last() =~= ids@.subrange(0, i as int));
                assert(s.last() == ids@[i as int]);
                reveal_with_fuel(Seq::filter, 1);
            }
            if valid_id(ids[i].as_str()) {
                let p = self.message_path(identity, ids[i].as_str());
                out.push(p);
            }
            i = i + 1;
        }
        assert(ids@.subrange(0, ids@.len() as int) =~= ids@);
        out
    }
}

/// `{id}.msg`.
pub fn message_file_name(id: &str) -> (f: String)
    ensures
        utf8_bytes(f@) == message_file_spec(utf8_bytes(id@)),
{
    let mut f = String::from_str(id);
    f.append(".msg");
    proof {
        crate::text::lemma_utf8_concat(id@, ".msg"@);
    }
    f
}

/// The id assigned to a message parked at `millis` with arrival counter `seq` and
/// random hex `suffix`.
pub fn message_id(millis: u64, seq: u64, suffix: &str) -> (id: String)
    ensures
        utf8_bytes(id@) == message_id_spec(millis as nat, seq as nat, utf8_bytes(suffix@)),
{
    let mut out: Vec<u8> = Vec::new();
    push_padded_decimal(&mut out, millis, 13);
    out.push(45u8);
    push_padded_decimal(&mut out, seq, 10);
    out.push(45u8);
    let ghost head = out@;
    push_str_bytes(&mut out, suffix);
    proof {
        lemma_dec_padded_digits(millis as nat, 13);
        lemma_dec_padded_digits(seq as nat, 10);
        assert(all_ascii(head)) by {
            assert forall|i: int| 0 <= i < head.len() implies #[trigger] head[i] < 128 by {
                let a = dec_padded(millis as nat, 13);
                let b = dec_padded(seq as nat, 10);
                if i < a.len() {
                    assert(head[i] == a[i]);
                } else if i == a.len() {
                } else if i < a.len() + 1 + b.len() {
                    assert(head[i] == b[i - a.len() - 1]);
                }
            }
        }
        lemma_ascii_valid_utf8(head);
        vstd::utf8::encode_utf8_valid_utf8(suffix@);
        vstd::utf8::valid_utf8_concat(head, utf8_bytes(suffix@));
        assert(out@ =~= message_id_spec(millis as nat, seq as nat, utf8_bytes(suffix@)));
    }
    string_from_valid_utf8(out)
}

/// A random 16-hex-digit suffix (the hex of 8 fresh random bytes), guarding against id
/// collisions across process restarts; `None` when the system random source cannot
/// supply the bytes.
pub fn random_suffix() -> (r: Option<String>)
    ensures
        r matches Some(s) ==> is_hex_spec(utf8_bytes(s@), 16),
{
    let bytes = match generate_group_key() {
        Ok(b) => b,
        Err(_) => return None,
    };
    let s = hex_encode(&bytes[0..8]);
    proof {
        lemma_hex_encode_is_hex(bytes@.subrange(0, 8));
    }
    Some(s)
}

/// Hex text is lowercase hex of twice the length.
pub proof fn lemma_hex_encode_is_hex(b: Seq<u8>)
    ensures
        is_hex_spec(hex_encode_spec(b), 2 * b.len()),
{
    let t = hex_encode_spec(b);
    assert forall|i: int| 0 <= i < t.len() implies #[trigger] is_lower_hex_digit(t[i]) by {
        let x = b[i / 2];
        assert(0 <= x as int / 16 < 16);
    }
}

/// The parked message for a file name: its id is the name with every trailing `.msg`
/// removed.
pub fn pulled_message(name: &str, payload: String) -> (m: PulledMessage)
    ensures
        utf8_bytes(m.id@) == trim_end_spec(utf8_bytes(name@), utf8_bytes(".msg"@)),
        m.payload == payload,
{
    let pat: [u8; 4] = [46u8, 109, 115, 103];
    proof {
        lemma_msg_suffix_bytes();
        assert(pat@ =~= utf8_bytes(".msg"@));
        assert(all_ascii(pat@));
    }
    let id = trim_end_ascii(name, &pat);
    PulledMessage { id, payload }
}

/// Whether a directory entry name is that of a parked message.
pub open spec fn is_message_file(name: Seq<u8>) -> bool {
    ends_with(name, utf8_bytes(".msg"@))
}

/// The entry names a pull reads: the message files in byte order, which is delivery
/// order, oldest first, at most `limit` of them.
pub open spec fn pull_selection(names: Seq<Seq<u8>>, limit: nat) -> Seq<Seq<u8>> {
    let sorted = names.filter(|n: Seq<u8>| is_message_file(n)).sort_by(byte_order());
    if limit < sorted.len() {
        sorted.take(limit as int)
    } else {
        sorted
    }
}

/// Chooses, from the entry names of a mailbox directory, the message files a pull
/// returns, in the order it returns them.
pub fn select_for_pull(names: Vec<String>, limit: usize) -> (sel: Vec<String>)
    ensures
        strings_bytes(sel@) == pull_selection(strings_bytes(names@), limit as nat),
{
    let pat: [u8; 4] = [46u8, 109, 115, 103];
    proof {
        lemma_msg_suffix_bytes();
        assert(pat@ =~= utf8_bytes(".msg"@));
    }
    let ghost pred = |n: Seq<u8>| is_message_file(n);
    let mut kept: Vec<String> = Vec::new();
    let mut i: usize = 0;
    while i < names.len()
        invariant
            0 <= i <= names@.len(),
            pat@ == utf8_bytes(".msg"@),
            pred == (|n: Seq<u8>| is_message_file(n)),
            strings_bytes(kept@) == strings_bytes(names@.subrange(0, i as int)).filter(pred),
        decreases names@.len() - i,
    {
        let ghost prev = strings_bytes(kept@);
        let name = names[i].clone();
        let keep = bytes_ends_with(name.as_str().as_bytes(), &pat);
        if keep {
            kept.push(name);
        }
        proof {
            let s = strings_bytes(names@.subrange(0, i + 1));
            assert(s.drop_last() =~= strings_bytes(names@.subrange(0, i as int)));
            assert(s.last() == utf8_bytes(names@[i as int]@));
            reveal_with_fuel(Seq::filter, 1);
            if keep {
                assert(strings_bytes(kept@) =~= prev.push(utf8_bytes(names@[i as int]@)));
            }
        }
        i = i + 1;
    }
    proof {
        assert(names@.subrange(0, names@.len() as int) =~= names@);
    }
    let mut sorted = sort_strings(kept);
    let ghost full = strings_bytes(sorted@);
    sorted.truncate(limit);
    proof {
        if (limit as int) < full.len() {
            assert(strings_bytes(sorted@) =~= full.take(limit as int));
        }
    }
    sorted
}

/// Leading zero digits add nothing to a value.
proof fn lemma_zeros_value(z: Seq<u8>, d: Seq<u8>)
    requires
        forall|i: int| 0 <= i < z.len() ==> z[i] == 48u8,
    ensures
        digits_value(z + d) == digits_value(d),
    decreases z.len() + d.len(),
{
    if d.len() > 0 {
        assert((z + d).drop_last() =~= z + d.drop_last());
        lemma_zeros_value(z, d.drop_last());
    } else if z.len() > 0 {
        assert((z + d).drop_last() =~= z.drop_last() + d);
        lemma_zeros_value(z.drop_last(), d);
        assert(z + d =~= z);
    } else {
        assert(z + d =~= d);
    }
}

/// A padded decimal is worth the number.
proof fn lemma_dec_padded_value(n: nat, w: nat)
    ensures
        digits_value(dec_padded(n, w)) == n,
{
    lemma_dec_value(n);
    if dec(n).len() < w {
        let z = Seq::new((w - dec(n).len()) as nat, |i: int| 48u8);
        lemma_zeros_value(z, dec(n));
    }
}

/// A string of `L` digits is worth less than `10^L`.
proof fn lemma_digits_value_bound(d: Seq<u8>)
    requires
        all_digits(d),
    ensures
        digits_value(d) < pow10(d.len()),
    decreases d.len(),
{
    if d.len() > 0 {
        let p = d.drop_last();
        assert(all_digits(p)) by {
            assert forall|i: int| 0 <= i < p.len() implies 48 <= #[trigger] p[i] <= 57 by {
                assert(p[i] == d[i]);
            }
        }
        lemma_digits_value_bound(p);
        let v = digits_value(p);
        let l = (d.last() - 48) as nat;
        assert(l <= 9);
        assert(pow10(d.len()) == 10 * pow10(p.len()));
        assert(v * 10 + l < 10 * pow10(p.len())) by (nonlinear_arith)
            requires
                v < pow10(p.len()),
                l <= 9,
        ;
    }
}

/// The value of a digit string, read from its first digit.
proof fn lemma_digits_front(d: Seq<u8>)
    requires
        d.len() >= 1,
        all_digits(d),
    ensures
        digits_value(d) == (d[0] - 48) as nat * pow10((d.len() - 1) as nat) + digits_value(d.drop_first()),
    decreases d.len(),
{
    reveal_with_fuel(digits_value, 2);
    if d.len() == 1 {
        assert(d.drop_last() =~= Seq::<u8>::empty());
        assert(d.drop_first() =~= Seq::<u8>::empty());
        assert(d.last() == d[0]);
        assert(digits_value(d) == digits_value(d.drop_last()) * 10 + (d.last() - 48) as nat);
        assert(digits_value(d.drop_last()) == 0);
        assert(pow10(0) == 1);
        assert((d[0] - 48) as nat * pow10(0) == (d[0] - 48) as nat);
    } else {
        let p = d.drop_last();
        assert(all_digits(p)) by {
            assert forall|i: int| 0 <= i < p.len() implies 48 <= #[trigger] p[i] <= 57 by {
                assert(p[i] == d[i]);
            }
        }
        lemma_digits_front(p);
        let q = d.drop_first();
        assert(q.drop_last() =~= p.drop_first());
        assert(q.last() == d.last());
        let a = (d[0] - 48) as nat;
        let big = pow10((d.len() - 2) as nat);
        let v = digits_value(p.drop_first());
        let l = (d.last() - 48) as nat;
        assert(digits_value(d) == digits_value(p) * 10 + l);
        assert(digits_value(q) == digits_value(q.drop_last()) * 10 + (q.last() - 48) as nat);
        assert(p[0] == d[0]);
        assert(pow10((d.len() - 1) as nat) == 10 * big);
        assert((a * big + v) * 10 + l == a * (10 * big) + (v * 10 + l)) by (nonlinear_arith);
        assert(digits_value(p) == a * big + v);
        assert(digits_value(q) == v * 10 + l);
        assert(digits_value(d) == a * (10 * big) + digits_value(q));
    }
}

/// Equal-length digit strings compare in byte order as their values do.
proof fn lemma_lex_digits(a: Seq<u8>, b: Seq<u8>)
    requires
        a.len() == b.len(),
        all_digits(a),
        all_digits(b),
    ensures
        lex_le(a, b) <==> digits_value(a) <= digits_value(b),
    decreases a.len(),
{
    if a.len() > 0 {
        let a1 = a.drop_first();
        let b1 = b.drop_first();
        assert(all_digits(a1)) by {
            assert forall|i: int| 0 <= i < a1.len() implies 48 <= #[trigger] a1[i] <= 57 by {
                assert(a1[i] == a[i + 1]);
            }
        }
        assert(all_digits(b1)) by {
            assert forall|i: int| 0 <= i < b1.len() implies 48 <= #[trigger] b1[i] <= 57 by {
                assert(b1[i] == b[i + 1]);
            }
        }
        lemma_digits_front(a);
        lemma_digits_front(b);
        lemma_digits_value_bound(a1);
        lemma_digits_value_bound(b1);
        let p = pow10((a.len() - 1) as nat);
        let x = (a[0] - 48) as nat;
        let y = (b[0] - 48) as nat;
        let va = digits_value(a1);
        let vb = digits_value(b1);
        if a[0] < b[0] {
            assert(x * p + va < y * p + vb) by (nonlinear_arith)
                requires
                    x < y,
                    va < p,
            ;
        } else if a[0] > b[0] {
            assert(y * p + vb < x * p + va) by (nonlinear_arith)
                requires
                    y < x,
                    vb < p,
            ;
        } else {
            lemma_lex_digits(a1, b1);
        }
    }
}

/// Byte order past an equal-length head: the heads decide when they differ, the rest
/// when they are equal.
proof fn lemma_lex_concat(a: Seq<u8>, b: Seq<u8>, x: Seq<u8>, y: Seq<u8>)
    requires
        a.len() == b.len(),
    ensures
        a == b ==> (lex_le(a + x, b + y) == lex_le(x, y)),
        a != b ==> (lex_le(a + x, b + y) == lex_le(a, b)),
    decreases a.len(),
{
    if a.len() == 0 {
        assert(a + x =~= x);
        assert(b + y =~= y);
        assert(a =~= b);
    } else {
        assert((a + x).drop_first() =~= a.drop_first() + x);
        assert((b + y).drop_first() =~= b.drop_first() + y);
        lemma_lex_concat(a.drop_first(), b.drop_first(), x, y);
        assert(a =~= seq![a[0]] + a.drop_first());
        assert(b =~= seq![b[0]] + b.drop_first());
        if a[0] == b[0] {
            if a.drop_first() == b.drop_first() {
                assert(a =~= b);
            } else {
                assert(a != b);
            }
        }
    }
}

/// Messages are parked in delivery order: the file of a message parked earlier (an
/// earlier millisecond, or the same millisecond and a lower arrival counter) comes
/// strictly before a later one's in byte order, which is the order a pull returns them.
pub proof fn lemma_message_files_in_delivery_order(
    t1: nat,
    s1: nat,
    x1: Seq<u8>,
    t2: nat,
    s2: nat,
    x2: Seq<u8>,
)
    requires
        t1 < pow10(13),
        t2 < pow10(13),
        s1 < pow10(10),
        s2 < pow10(10),
        t1 < t2 || (t1 == t2 && s1 < s2),
    ensures
        lex_le(message_file_spec(message_id_spec(t1, s1, x1)), message_file_spec(message_id_spec(t2, s2, x2))),
        message_file_spec(message_id_spec(t1, s1, x1)) != message_file_spec(message_id_spec(t2, s2, x2)),
{
    let a1 = dec_padded(t1, 13);
    let a2 = dec_padded(t2, 13);
    let b1 = dec_padded(s1, 10);
    let b2 = dec_padded(s2, 10);
    let m = utf8_bytes(".msg"@);
    lemma_dec_padded_digits(t1, 13);
    lemma_dec_padded_digits(t2, 13);
    lemma_dec_padded_digits(s1, 10);
    lemma_dec_padded_digits(s2, 10);
    lemma_dec_padded_value(t1, 13);
    lemma_dec_padded_value(t2, 13);
    lemma_dec_padded_value(s1, 10);
    lemma_dec_padded_value(s2, 10);
    let r1 = seq![45u8] + b1 + seq![45u8] + x1 + m;
    let r2 = seq![45u8] + b2 + seq![45u8] + x2 + m;
    let f1 = message_file_spec(message_id_spec(t1, s1, x1));
    let f2 = message_file_spec(message_id_spec(t2, s2, x2));
    assert(f1 =~= a1 + r1);
    assert(f2 =~= a2 + r2);
    if t1 < t2 {
        lemma_lex_digits(a1, a2);
        assert(a1 != a2);
        lemma_lex_concat(a1, a2, r1, r2);
        assert(f1.take(13) =~= a1);
        assert(f2.take(13) =~= a2);
    } else {
        let h1 = a1 + seq![45u8];
        let h2 = a2 + seq![45u8];
        let q1 = b1 + (seq![45u8] + x1 + m);
        let q2 = b2 + (seq![45u8] + x2 + m);
        assert(f1 =~= h1 + q1);
        assert(f2 =~= h2 + q2);
        lemma_lex_concat(h1, h2, q1, q2);
        lemma_lex_digits(b1, b2);
        assert(b1 != b2);
        lemma_lex_concat(b1, b2, seq![45u8] + x1 + m, seq![45u8] + x2 + m);
        assert(f1.subrange(14, 24) =~= b1);
        assert(f2.subrange(14, 24) =~= b2);
    }
}

} // verus!
