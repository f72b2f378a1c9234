//! Byte and text helpers shared by every module: UTF-8 views of strings,
//! byte-wise comparison, and building byte strings.

use vstd::prelude::*;
use vstd::utf8::*;
use vstd::relations::{sorted_by, total_ordering};

verus! {

/// The UTF-8 bytes of a character sequence (the view that `str::as_bytes` gives).
pub open spec fn utf8_bytes(chars: Seq<char>) -> Seq<u8> {
    encode_utf8(chars)
}

/// UTF-8 encoding distributes over concatenation.
pub proof fn lemma_utf8_concat(a: Seq<char>, b: Seq<char>)
    ensures
        utf8_bytes(a + b) == utf8_bytes(a) + utf8_bytes(b),
    decreases a.len(),
{
    if a.len() == 0 {
        assert(a + b =~= b);
        assert(utf8_bytes(a) + utf8_bytes(b) =~= utf8_bytes(b));
    } else {
        assert((a + b).drop_first() =~= a.drop_first() + b);
        lemma_utf8_concat(a.drop_first(), b);
        assert((a + b)[0] == a[0]);
        assert(utf8_bytes(a + b) =~= encode_scalar(a[0] as u32) + (utf8_bytes(a.drop_first())
            + utf8_bytes(b)));
    }
}

/// Two character sequences are equal exactly when their UTF-8 bytes are.
pub proof fn lemma_utf8_injective(a: Seq<char>, b: Seq<char>)
    ensures
        (utf8_bytes(a) == utf8_bytes(b)) <==> (a == b),
{
    encode_utf8_decode_utf8(a);
    encode_utf8_decode_utf8(b);
}

/// A byte sequence of ASCII bytes only.
pub open spec fn all_ascii(bytes: Seq<u8>) -> bool {
    forall|i: int| 0 <= i < bytes.len() ==> #[trigger] bytes[i] < 128
}

/// ASCII bytes are valid UTF-8.
pub proof fn lemma_ascii_valid_utf8(bytes: Seq<u8>)
    requires
        all_ascii(bytes),
    ensures
        valid_utf8(bytes),
{
    assert forall|i: int| 0 <= 0 <= i < bytes.len() <= bytes.len() implies #[trigger] is_leading_byte_width_1(bytes[i]) by {
        assert(bytes[i] < 128);
    }
    assert(bytes.subrange(0, 0) =~= Seq::<u8>::empty());
    assert(partial_valid_utf8(bytes, 0));
    partial_valid_utf8_extend_ascii_block(bytes, 0, bytes.len() as int);
    assert(bytes.subrange(0, bytes.len() as int) =~= bytes);
}

/// `String::from_utf8`: the bytes as a `String` when they are valid UTF-8.
#[verifier::external_body]
pub fn string_from_utf8(bytes: Vec<u8>) -> (result: Option<String>)
    ensures
        result is Some <==> valid_utf8(bytes@),
        result matches Some(s) ==> s@ == decode_utf8(bytes@),
{
    match String::from_utf8(bytes) {
        Ok(s) => Some(s),
        Err(_) => None,
    }
}

/// Builds a `String` from bytes already known to be valid UTF-8.
pub fn string_from_valid_utf8(bytes: Vec<u8>) -> (s: String)
    requires
        valid_utf8(bytes@),
    ensures
        utf8_bytes(s@) == bytes@,
{
    let ghost b = bytes@;
    match string_from_utf8(bytes) {
        Some(s) => {
            proof {
                decode_utf8_encode_utf8(b);
            }
            s
        },
        None => {
            proof {
                assert(false);
            }
            String::new()
        },
    }
}

/// Appends the UTF-8 bytes of `s` to `out`.
pub fn push_str_bytes(out: &mut Vec<u8>, s: &str)
    ensures
        final(out)@ == old(out)@ + utf8_bytes(s@),
{
    push_bytes(out, s.as_bytes());
}

/// Appends `bytes` to `out`.
pub fn push_bytes(out: &mut Vec<u8>, bytes: &[u8])
    ensures
        final(out)@ == old(out)@ + bytes@,
{
    let ghost start = out@;
    let mut i: usize = 0;
    while i < bytes.len()
        invariant
            0 <= i <= bytes@.len(),
            out@ == start + bytes@.subrange(0, i as int),
        decreases bytes@.len() - i,
    {
        out.push(bytes[i]);
        i = i + 1;
        assert(bytes@.subrange(0, i as int) =~= bytes@.subrange(0, i - 1) + seq![bytes@[i - 1]]);
    }
    assert(bytes@.subrange(0, bytes@.len() as int) =~= bytes@);
}

/// Byte-wise equality of two slices.
pub fn bytes_eq(a: &[u8], b: &[u8]) -> (r: bool)
    ensures
        r == (a@ == b@),
{
    if a.len() != b.len() {
        return false;
    }
    let mut i: usize = 0;
    while i < a.len()
        invariant
            a@.len() == b@.len(),
            0 <= i <= a@.len(),
            forall|j: int| 0 <= j < i ==> a@[j] == b@[j],
        decreases a@.len() - i,
    {
        if a[i] != b[i] {
            return false;
        }
        i = i + 1;
    }
    assert(a@ =~= b@);
    true
}

/// Equality of two strings, compared by their bytes.
pub fn str_eq(a: &str, b: &str) -> (r: bool)
    ensures
        r == (a@ == b@),
{
    let r = bytes_eq(a.as_bytes(), b.as_bytes());
    proof {
        lemma_utf8_injective(a@, b@);
    }
    r
}

/// `a` is not greater than `b` in lexicographic byte order (the order of `str` and of
/// byte arrays).
pub open spec fn lex_le(a: Seq<u8>, b: Seq<u8>) -> bool
    decreases a.len(),
{
    if a.len() == 0 {
        true
    } else if b.len() == 0 {
        false
    } else if a[0] < b[0] {
        true
    } else if a[0] > b[0] {
        false
    } else {
        lex_le(a.drop_first(), b.drop_first())
    }
}

/// Lexicographic order is total.
pub proof fn lemma_lex_total(a: Seq<u8>, b: Seq<u8>)
    ensures
        lex_le(a, b) || lex_le(b, a),
    decreases a.len(),
{
    if a.len() > 0 && b.len() > 0 && a[0] == b[0] {
        lemma_lex_total(a.drop_first(), b.drop_first());
    }
}

/// Lexicographic order is antisymmetric.
pub proof fn lemma_lex_antisymmetric(a: Seq<u8>, b: Seq<u8>)
    requires
        lex_le(a, b),
        lex_le(b, a),
    ensures
        a == b,
    decreases a.len(),
{
    if a.len() == 0 {
        assert(b.len() == 0);
        assert(a =~= b);
    } else {
        lemma_lex_antisymmetric(a.drop_first(), b.drop_first());
        assert(a =~= seq![a[0]] + a.drop_first());
        assert(b =~= seq![b[0]] + b.drop_first());
    }
}

/// Lexicographic order is transitive.
pub proof fn lemma_lex_transitive(a: Seq<u8>, b: Seq<u8>, c: Seq<u8>)
    requires
        lex_le(a, b),
        lex_le(b, c),
    ensures
        lex_le(a, c),
    decreases a.len(),
{
    if a.len() > 0 && b.len() > 0 && c.len() > 0 && a[0] == b[0] && b[0] == c[0] {
        lemma_lex_transitive(a.drop_first(), b.drop_first(), c.drop_first());
    }
}

/// Decides `lex_le(a, b)`.
pub fn bytes_lex_le(a: &[u8], b: &[u8]) -> (r: bool)
    ensures
        r == lex_le(a@, b@),
{
    let mut i: usize = 0;
    proof {
        assert(a@.skip(0) =~= a@);
        assert(b@.skip(0) =~= b@);
    }
    while i < a.len() && i < b.len()
        invariant
            0 <= i <= a@.len(),
            i <= b@.len(),
            forall|j: int| 0 <= j < i ==> a@[j] == b@[j],
            lex_le(a@, b@) == lex_le(a@.skip(i as int), b@.skip(i as int)),
        decreases a@.len() - i,
    {
        if a[i] < b[i] {
            return true;
        }
        if a[i] > b[i] {
            return false;
        }
        proof {
            assert(a@.skip(i as int).drop_first() =~= a@.skip(i + 1));
            assert(b@.skip(i as int).drop_first() =~= b@.skip(i + 1));
        }
        i = i + 1;
    }
    i == a.len()
}

/// Decides `lex_le` on the bytes of two strings.
pub fn str_lex_le(a: &str, b: &str) -> (r: bool)
    ensures
        r == lex_le(utf8_bytes(a@), utf8_bytes(b@)),
{
    bytes_lex_le(a.as_bytes(), b.as_bytes())
}

/// `Path::join` of a base and one more component, on Unix, over bytes: an absolute
/// component replaces the base; otherwise a `/` separates them unless the base is empty
/// or already ends with one.
pub open spec fn path_join_spec(base: Seq<u8>, comp: Seq<u8>) -> Seq<u8> {
    if comp.len() > 0 && comp[0] == 47u8 {
        comp
    } else if base.len() == 0 || base.last() == 47u8 {
        base + comp
    } else {
        base + seq![47u8] + comp
    }
}

/// `base.join(comp)` as a string.
pub fn path_join(base: &str, comp: &str) -> (p: String)
    ensures
        utf8_bytes(p@) == path_join_spec(utf8_bytes(base@), utf8_bytes(comp@)),
{
    let b = base.as_bytes();
    let c = comp.as_bytes();
    let mut out: Vec<u8> = Vec::new();
    proof {
        encode_utf8_valid_utf8(base@);
        encode_utf8_valid_utf8(comp@);
    }
    if c.len() > 0 && c[0] == 47u8 {
        push_bytes(&mut out, c);
        assert(out@ =~= c@);
    } else if b.len() == 0 || b[b.len() - 1] == 47u8 {
        push_bytes(&mut out, b);
        push_bytes(&mut out, c);
        proof {
            valid_utf8_concat(b@, c@);
        }
    } else {
        push_bytes(&mut out, b);
        out.push(47u8);
        push_bytes(&mut out, c);
        proof {
            lemma_ascii_valid_utf8(seq![47u8]);
            valid_utf8_concat(b@, seq![47u8]);
            valid_utf8_concat(b@ + seq![47u8], c@);
            assert(out@ =~= b@ + seq![47u8] + c@);
        }
    }
    string_from_valid_utf8(out)
}

/// Whether `s` ends with the bytes `suffix`.
pub open spec fn ends_with(s: Seq<u8>, suffix: Seq<u8>) -> bool {
    suffix.len() <= s.len() && s.skip(s.len() - suffix.len()) == suffix
}

/// Decides `ends_with`.
pub fn bytes_ends_with(s: &[u8], suffix: &[u8]) -> (r: bool)
    ensures
        r == ends_with(s@, suffix@),
{
    if suffix.len() > s.len() {
        return false;
    }
    let off = s.len() - suffix.len();
    let mut j: usize = off;
    while j < s.len()
        invariant
            off == s@.len() - suffix@.len(),
            suffix@.len() <= s@.len(),
            off <= j <= s@.len(),
            forall|k: int| off <= k < j ==> s@[k] == suffix@[k - off],
        decreases s@.len() - j,
    {
        if s[j] != suffix[j - off] {
            assert(s@.skip(off as int)[j - off] != suffix@[j - off]);
            return false;
        }
        j = j + 1;
    }
    assert(s@.skip(off as int) =~= suffix@);
    true
}

/// Dropping a final ASCII byte from UTF-8 text drops its final character.
pub proof fn lemma_utf8_drop_last_ascii(c: Seq<char>)
    requires
        utf8_bytes(c).len() > 0,
        utf8_bytes(c).last() < 128,
    ensures
        c.len() > 0,
        utf8_bytes(c.drop_last()) == utf8_bytes(c).drop_last(),
{
    if c.len() == 0 {
        assert(utf8_bytes(c).len() == 0);
    }
    let l = c.last();
    let v = l as u32;
    assert(c =~= c.drop_last() + seq![l]);
    lemma_utf8_concat(c.drop_last(), seq![l]);
    assert(seq![l].drop_first() =~= Seq::<char>::empty());
    char_is_scalar(l);
    reveal_with_fuel(encode_utf8, 2);
    assert(utf8_bytes(seq![l]) =~= encode_scalar(v));
    if !has_width_1_encoding(v) {
        let y = (v & 0x3F) as u8;
        assert((0x80u8 | y) >= 0x80u8) by (bit_vector);
        assert(encode_scalar(v).last() == last_continuation_byte(v));
        assert(false);
    }
    assert(utf8_bytes(c).drop_last() =~= utf8_bytes(c.drop_last()));
}

/// Dropping `k` final ASCII bytes from UTF-8 text drops its `k` final characters.
pub proof fn lemma_utf8_drop_ascii_suffix(c: Seq<char>, k: nat)
    requires
        k <= utf8_bytes(c).len(),
        forall|i: int| utf8_bytes(c).len() - k <= i < utf8_bytes(c).len() ==> #[trigger] utf8_bytes(c)[i] < 128,
    ensures
        k <= c.len(),
        utf8_bytes(c.take(c.len() - k)) == utf8_bytes(c).take(utf8_bytes(c).len() - k),
    decreases k,
{
    let b = utf8_bytes(c);
    if k == 0 {
        assert(c.take(c.len() as int) =~= c);
        assert(b.take(b.len() as int) =~= b);
    } else {
        lemma_utf8_drop_last_ascii(c);
        let c1 = c.drop_last();
        let b1 = utf8_bytes(c1);
        assert(b1 == b.drop_last());
        assert forall|i: int| b1.len() - (k - 1) <= i < b1.len() implies #[trigger] b1[i] < 128 by {
            assert(b1[i] == b[i]);
        }
        lemma_utf8_drop_ascii_suffix(c1, (k - 1) as nat);
        assert(c1.take(c1.len() - (k - 1)) =~= c.take(c.len() - k));
        assert(b1.take(b1.len() - (k - 1)) =~= b.take(b.len() - k));
    }
}

/// `s.trim_end_matches(pat)` on bytes: every trailing repetition of `pat` removed.
pub open spec fn trim_end_spec(b: Seq<u8>, pat: Seq<u8>) -> Seq<u8>
    decreases b.len(),
{
    if pat.len() > 0 && ends_with(b, pat) {
        trim_end_spec(b.take(b.len() - pat.len()), pat)
    } else {
        b
    }
}

/// `s.trim_end_matches(pat)` for a non-empty ASCII pattern.
pub fn trim_end_ascii(s: &str, pat: &[u8]) -> (r: String)
    requires
        pat@.len() > 0,
        all_ascii(pat@),
    ensures
        utf8_bytes(r@) == trim_end_spec(utf8_bytes(s@), pat@),
{
    let b = s.as_bytes();
    let ghost bb = b@;
    let mut cur: usize = b.len();
    let ghost mut k: int = s@.len() as int;
    proof {
        assert(bb.take(cur as int) =~= bb);
        assert(s@.take(k) =~= s@);
    }
    while cur >= pat.len() && bytes_ends_with(&b[0..cur], pat)
        invariant
            b@ == bb,
            bb == utf8_bytes(s@),
            pat@.len() > 0,
            all_ascii(pat@),
            0 <= cur <= bb.len(),
            0 <= k <= s@.len(),
            utf8_bytes(s@.take(k)) == bb.take(cur as int),
            trim_end_spec(bb, pat@) == trim_end_spec(bb.take(cur as int), pat@),
        decreases cur,
    {
        proof {
            let cur_b = bb.take(cur as int);
            assert(b@.subrange(0, cur as int) =~= cur_b);
            let ck = s@.take(k);
            assert forall|i: int| cur_b.len() - pat@.len() <= i < cur_b.len() implies #[trigger] utf8_bytes(ck)[i] < 128 by {
                assert(cur_b.skip(cur_b.len() - pat@.len())[i - (cur_b.len() - pat@.len())] == pat@[i - (cur_b.len() - pat@.len())]);
            }
            lemma_utf8_drop_ascii_suffix(ck, pat@.len());
            assert(ck.take(ck.len() - pat@.len()) =~= s@.take(k - pat@.len()));
            assert(cur_b.take(cur_b.len() - pat@.len()) =~= bb.take(cur - pat@.len()));
            k = k - pat@.len();
        }
        cur = cur - pat.len();
    }
    proof {
        let cur_b = bb.take(cur as int);
        if cur >= pat@.len() {
            assert(b@.subrange(0, cur as int) =~= cur_b);
        }
        encode_utf8_valid_utf8(s@.take(k));
    }
    let mut out: Vec<u8> = Vec::new();
    push_bytes(&mut out, &b[0..cur]);
    assert(out@ =~= bb.take(cur as int));
    string_from_valid_utf8(out)
}

/// The UTF-8 bytes of each string.
pub open spec fn strings_bytes(items: Seq<String>) -> Seq<Seq<u8>> {
    items.map_values(|s: String| utf8_bytes(s@))
}

/// The byte order of strings (`lex_le`) as a relation.
pub open spec fn byte_order() -> spec_fn(Seq<u8>, Seq<u8>) -> bool {
    |a: Seq<u8>, b: Seq<u8>| lex_le(a, b)
}

/// The byte order is a total order.
pub proof fn lemma_byte_order_total()
    ensures
        total_ordering(byte_order()),
{
    let r = byte_order();
    assert forall|x: Seq<u8>| #[trigger] r(x, x) by {
        lemma_lex_total(x, x);
    }
    assert forall|x: Seq<u8>, y: Seq<u8>| #[trigger] r(x, y) && #[trigger] r(y, x) implies x == y by {
        lemma_lex_antisymmetric(x, y);
    }
    assert forall|x: Seq<u8>, y: Seq<u8>, z: Seq<u8>| #[trigger] r(x, y) && #[trigger] r(y, z) implies r(x, z) by {
        lemma_lex_transitive(x, y, z);
    }
    assert forall|x: Seq<u8>, y: Seq<u8>| #[trigger] r(x, y) || #[trigger] r(y, x) by {
        lemma_lex_total(x, y);
    }
}

/// Inserting `x` into a sorted sequence after every element not greater than it, and
/// before one greater than it, keeps the sequence sorted.
proof fn lemma_insert_sorted(s: Seq<Seq<u8>>, p: int, x: Seq<u8>)
    requires
        sorted_by(s, byte_order()),
        0 <= p <= s.len(),
        forall|k: int| 0 <= k < p ==> lex_le(#[trigger] s[k], x),
        p < s.len() ==> !lex_le(s[p], x),
    ensures
        sorted_by(s.insert(p, x), byte_order()),
{
    let t = s.insert(p, x);
    let r = byte_order();
    if p < s.len() {
        lemma_lex_total(s[p], x);
    }
    assert forall|i: int, j: int| 0 <= i < j < t.len() implies #[trigger] r(t[i], t[j]) by {
        if j < p {
            assert(r(s[i], s[j]));
        } else if j == p {
            assert(lex_le(s[i], x));
        } else if i < p {
            assert(r(s[i], s[j - 1]));
        } else if i == p {
            if j - 1 > p {
                assert(r(s[p], s[j - 1]));
                lemma_lex_transitive(x, s[p], s[j - 1]);
            }
        } else {
            assert(r(s[i - 1], s[j - 1]));
        }
    }
}

/// The strings sorted by their bytes (`sort()` on strings).
pub fn sort_strings(v: Vec<String>) -> (r: Vec<String>)
    ensures
        strings_bytes(r@) == strings_bytes(v@).sort_by(byte_order()),
{
    broadcast use vstd::seq_lib::group_to_multiset_ensures;
    broadcast use vstd::multiset::group_multiset_axioms;
    let mut out: Vec<String> = Vec::new();
    let mut j: usize = 0;
    while j < v.len()
        invariant
            0 <= j <= v@.len(),
            sorted_by(strings_bytes(out@), byte_order()),
            strings_bytes(out@).to_multiset() == strings_bytes(v@.subrange(0, j as int)).to_multiset(),
        decreases v@.len() - j,
    {
        let x = v[j].clone();
        let mut p: usize = 0;
        while p < out.len() && str_lex_le(out[p].as_str(), x.as_str())
            invariant
                0 <= p <= out@.len(),
                forall|k: int| 0 <= k < p ==> lex_le(#[trigger] strings_bytes(out@)[k], utf8_bytes(x@)),
            decreases out@.len() - p,
        {
            p = p + 1;
        }
        let ghost before = strings_bytes(out@);
        out.insert(p, x);
        proof {
            let bx = utf8_bytes(x@);
            assert(strings_bytes(out@) =~= before.insert(p as int, bx));
            lemma_insert_sorted(before, p as int, bx);
            let t = before.insert(p as int, bx);
            assert(t.remove(p as int) =~= before);
            assert(t.to_multiset() =~= before.to_multiset().insert(bx)) by {
                vstd::seq_lib::to_multiset_remove(t, p as int);
                assert(t[p as int] == bx);
                assert(t.contains(bx));
                t.to_multiset_ensures();
                assert(t.to_multiset().count(bx) > 0);
            }
            let next = strings_bytes(v@.subrange(0, j + 1));
            assert(next =~= strings_bytes(v@.subrange(0, j as int)).push(bx));
            vstd::seq_lib::to_multiset_build(strings_bytes(v@.subrange(0, j as int)), bx);
        }
        j = j + 1;
    }
    proof {
        assert(v@.subrange(0, v@.len() as int) =~= v@);
        lemma_byte_order_total();
        strings_bytes(v@).lemma_sort_by_ensures(byte_order());
        vstd::seq_lib::lemma_sorted_unique(strings_bytes(out@), strings_bytes(v@).sort_by(byte_order()), byte_order());
    }
    out
}

/// The characters of ASCII bytes, one for each.
pub open spec fn ascii_chars(b: Seq<u8>) -> Seq<char> {
    b.map_values(|x: u8| x as char)
}

/// ASCII bytes are the UTF-8 encoding of their characters.
pub proof fn lemma_ascii_chars_utf8(b: Seq<u8>)
    requires
        all_ascii(b),
    ensures
        utf8_bytes(ascii_chars(b)) == b,
    decreases b.len(),
{
    let c = ascii_chars(b);
    if b.len() > 0 {
        let x = b[0];
        assert(c[0] == x as char);
        assert((x as char) as u32 == x as u32);
        let u = x as u32;
        assert(u <= 0x7F);
        assert(((u & 0x7F) as u8) == x) by (bit_vector)
            requires
                u == x as u32,
                u <= 0x7F,
        ;
        assert(c.drop_first() =~= ascii_chars(b.drop_first()));
        lemma_ascii_chars_utf8(b.drop_first());
        assert(b =~= seq![x] + b.drop_first());
    } else {
        assert(c.len() == 0);
    }
}

/// The text of ASCII bytes is their characters.
pub proof fn lemma_ascii_decode(b: Seq<u8>)
    requires
        all_ascii(b),
    ensures
        decode_utf8(b) == ascii_chars(b),
{
    lemma_ascii_chars_utf8(b);
    encode_utf8_decode_utf8(ascii_chars(b));
}

/// Two byte strings that each start with a field free of `sep` followed by `sep` are
/// equal only when their fields and their remainders are.
pub proof fn lemma_split_first_sep(x: Seq<u8>, r: Seq<u8>, y: Seq<u8>, t: Seq<u8>, sep: u8)
    requires
        !x.contains(sep),
        !y.contains(sep),
        x + seq![sep] + r == y + seq![sep] + t,
    ensures
        x == y,
        r == t,
{
    let a = x + seq![sep] + r;
    let b = y + seq![sep] + t;
    if x.len() < y.len() {
        assert(a[x.len() as int] == sep);
        assert(b[x.len() as int] == y[x.len() as int]);
        assert(y.contains(sep));
    }
    if y.len() < x.len() {
        assert(b[y.len() as int] == sep);
        assert(a[y.len() as int] == x[y.len() as int]);
        assert(x.contains(sep));
    }
    assert(x =~= a.take(x.len() as int));
    assert(y =~= b.take(y.len() as int));
    assert(r =~= a.skip(x.len() as int + 1));
    assert(t =~= b.skip(y.len() as int + 1));
}

/// Two byte strings that each end with `sep` followed by a field free of `sep` are equal
/// only when their fields and what precedes them are.
pub proof fn lemma_split_last_sep(x: Seq<u8>, r: Seq<u8>, y: Seq<u8>, t: Seq<u8>, sep: u8)
    requires
        !r.contains(sep),
        !t.contains(sep),
        x + seq![sep] + r == y + seq![sep] + t,
    ensures
        x == y,
        r == t,
{
    let a = x + seq![sep] + r;
    let b = y + seq![sep] + t;
    assert(a.len() == b.len());
    if r.len() < t.len() {
        let k = a.len() - r.len() - 1;
        assert(a[k] == sep);
        assert(b[k] == t[k - y.len() - 1]);
        assert(t.contains(sep));
    }
    if t.len() < r.len() {
        let k = b.len() - t.len() - 1;
        assert(b[k] == sep);
        assert(a[k] == r[k - x.len() - 1]);
        assert(r.contains(sep));
    }
    assert(x =~= a.take(x.len() as int));
    assert(y =~= b.take(y.len() as int));
    assert(r =~= a.skip(x.len() as int + 1));
    assert(t =~= b.skip(y.len() as int + 1));
}

/// The UTF-8 bytes of a one-character ASCII string.
pub proof fn lemma_ascii_char_bytes(s: Seq<char>, b: u8)
    requires
        s.len() == 1,
        s[0] as u32 == b as u32,
        b < 128,
    ensures
        utf8_bytes(s) == seq![b],
{
    let u = b as u32;
    assert(((u & 0x7F) as u8) == b) by (bit_vector)
        requires
            u == b as u32,
            u < 128,
    ;
    reveal_with_fuel(vstd::utf8::encode_utf8, 2);
    assert(s.drop_first().len() == 0);
    assert(utf8_bytes(s) =~= seq![b]);
}

} // verus!
