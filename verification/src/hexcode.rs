//! Hexadecimal and decimal text encodings of bytes and integers.
//!
//! Hex follows the `hex` crate: `encode` writes two lowercase digits per byte, and
//! `decode` accepts lower- and uppercase digits, rejecting odd lengths and other
//! characters. Decimal follows Rust's `{}` and `{:0w}` formatting of unsigned integers.

use vstd::prelude::*;
use crate::text::{all_ascii, lemma_ascii_valid_utf8, string_from_valid_utf8, utf8_bytes};

verus! {

/// The lowercase hex digit (as an ASCII byte) for a value below 16.
pub open spec fn hex_digit(n: int) -> u8 {
    if n < 10 {
        (48 + n) as u8
    } else {
        (87 + n) as u8
    }
}

/// Lowercase hex text of a byte string: two digits per byte, high nibble first.
pub open spec fn hex_encode_spec(b: Seq<u8>) -> Seq<u8> {
    Seq::new(
        2 * b.len(),
        |i: int|
            if i % 2 == 0 {
                hex_digit(b[i / 2] as int / 16)
            } else {
                hex_digit(b[i / 2] as int % 16)
            },
    )
}

/// The value of one hex digit (either case), if the byte is one.
pub open spec fn hex_value(c: u8) -> Option<u8> {
    if 48 <= c <= 57 {
        Some((c - 48) as u8)
    } else if 97 <= c <= 102 {
        Some((c - 87) as u8)
    } else if 65 <= c <= 70 {
        Some((c - 55) as u8)
    } else {
        None
    }
}

/// Decoding of hex text: `None` for an odd length or a byte that is not a hex digit.
pub open spec fn hex_decode_spec(t: Seq<u8>) -> Option<Seq<u8>> {
    if t.len() % 2 != 0 {
        None
    } else if exists|i: int| 0 <= i < t.len() && #[trigger] hex_value(t[i]) is None {
        None
    } else {
        Some(
            Seq::new(
                t.len() / 2,
                |i: int| (hex_value(t[2 * i])->0 * 16 + hex_value(t[2 * i + 1])->0) as u8,
            ),
        )
    }
}

/// Decoding undoes encoding.
pub proof fn lemma_hex_roundtrip(b: Seq<u8>)
    ensures
        hex_decode_spec(hex_encode_spec(b)) == Some(b),
{
    let t = hex_encode_spec(b);
    assert forall|i: int| 0 <= i < t.len() implies #[trigger] hex_value(t[i]) is Some by {
        assert(0 <= b[i / 2] as int / 16 < 16);
    }
    let d = hex_decode_spec(t)->0;
    assert forall|i: int| 0 <= i < b.len() implies d[i] == b[i] by {
        assert(2 * i / 2 == i);
        assert((2 * i + 1) / 2 == i);
        assert((2 * i) % 2 == 0);
        assert((2 * i + 1) % 2 == 1);
        let hi = b[i] as int / 16;
        let lo = b[i] as int % 16;
        assert(hex_value(hex_digit(hi)) == Some(hi as u8));
        assert(hex_value(hex_digit(lo)) == Some(lo as u8));
    }
    assert(d =~= b);
}

/// Hex text is ASCII.
pub proof fn lemma_hex_ascii(b: Seq<u8>)
    ensures
        all_ascii(hex_encode_spec(b)),
{
    assert forall|i: int| 0 <= i < hex_encode_spec(b).len() implies #[trigger] hex_encode_spec(b)[i] < 128 by {
        assert(0 <= b[i / 2] as int / 16 < 16);
    }
}

/// The hex digit for `n < 16`.
pub fn hex_digit_exec(n: u8) -> (c: u8)
    requires
        n < 16,
    ensures
        c == hex_digit(n as int),
{
    if n < 10 {
        48 + n
    } else {
        87 + n
    }
}

/// `hex::encode`: lowercase hex text of `bytes`.
pub fn hex_encode(bytes: &[u8]) -> (s: String)
    requires
        bytes@.len() <= usize::MAX / 2,
    ensures
        utf8_bytes(s@) == hex_encode_spec(bytes@),
{
    let mut out: Vec<u8> = Vec::new();
    let mut i: usize = 0;
    while i < bytes.len()
        invariant
            0 <= i <= bytes@.len(),
            bytes@.len() <= usize::MAX / 2,
            out@ == hex_encode_spec(bytes@.subrange(0, i as int)),
        decreases bytes@.len() - i,
    {
        let b = bytes[i];
        out.push(hex_digit_exec(b / 16));
        out.push(hex_digit_exec(b % 16));
        proof {
            let p = bytes@.subrange(0, i + 1);
            assert(p.subrange(0, i as int) =~= bytes@.subrange(0, i as int));
            assert forall|k: int| 0 <= k < 2 * (i + 1) implies out@[k] == hex_encode_spec(p)[k] by {
                if k < 2 * i {
                    assert(hex_encode_spec(bytes@.subrange(0, i as int))[k] == hex_encode_spec(p)[k]);
                } else if k == 2 * i {
                    assert(k / 2 == i);
                } else {
                    assert(k / 2 == i);
                    assert(k % 2 == 1);
                }
            }
            assert(out@ =~= hex_encode_spec(p));
        }
        i = i + 1;
    }
    assert(bytes@.subrange(0, bytes@.len() as int) =~= bytes@);
    proof {
        lemma_hex_ascii(bytes@);
        lemma_ascii_valid_utf8(out@);
    }
    string_from_valid_utf8(out)
}

/// The value of one hex digit, if `c` is one.
pub fn hex_value_exec(c: u8) -> (r: Option<u8>)
    ensures
        r == hex_value(c),
{
    if 48 <= c && c <= 57 {
        Some(c - 48)
    } else if 97 <= c && c <= 102 {
        Some(c - 87)
    } else if 65 <= c && c <= 70 {
        Some(c - 55)
    } else {
        None
    }
}

/// `hex::decode` on raw bytes of hex text.
pub fn hex_decode_bytes(t: &[u8]) -> (r: Option<Vec<u8>>)
    ensures
        r matches Some(v) ==> hex_decode_spec(t@) == Some(v@),
        r is None ==> hex_decode_spec(t@) is None,
{
    if t.len() % 2 != 0 {
        return None;
    }
    let mut out: Vec<u8> = Vec::new();
    let mut i: usize = 0;
    while i < t.len() / 2
        invariant
            t@.len() % 2 == 0,
            0 <= i <= t@.len() / 2,
            out@.len() == i,
            forall|k: int| 0 <= k < 2 * i ==> #[trigger] hex_value(t@[k]) is Some,
            forall|k: int|
                0 <= k < i ==> out@[k] == (hex_value(t@[2 * k])->0 * 16 + hex_value(
                    t@[2 * k + 1],
                )->0) as u8,
        decreases t@.len() / 2 - i,
    {
        let hi = hex_value_exec(t[2 * i]);
        let lo = hex_value_exec(t[2 * i + 1]);
        match (hi, lo) {
            (Some(h), Some(l)) => {
                out.push(h * 16 + l);
            },
            _ => {
                proof {
                    if hi is None {
                        assert(hex_value(t@[2 * i as int]) is None);
                    } else {
                        assert(hex_value(t@[2 * i + 1]) is None);
                    }
                }
                return None;
            },
        }
        i = i + 1;
    }
    proof {
        assert(forall|k: int| 0 <= k < t@.len() ==> #[trigger] hex_value(t@[k]) is Some);
        assert(out@ =~= hex_decode_spec(t@)->0);
    }
    Some(out)
}

/// `hex::decode` of a string.
pub fn hex_decode(s: &str) -> (r: Option<Vec<u8>>)
    ensures
        r matches Some(v) ==> hex_decode_spec(utf8_bytes(s@)) == Some(v@),
        r is None ==> hex_decode_spec(utf8_bytes(s@)) is None,
{
    hex_decode_bytes(s.as_bytes())
}

/// Decoding of hex text to exactly 32 bytes.
pub open spec fn hex_key_spec(t: Seq<u8>) -> Option<Seq<u8>> {
    match hex_decode_spec(t) {
        Some(b) => if b.len() == 32 {
            Some(b)
        } else {
            None
        },
        None => None,
    }
}

/// Decoding of hex text to exactly 64 bytes.
pub open spec fn hex_sig_spec(t: Seq<u8>) -> Option<Seq<u8>> {
    match hex_decode_spec(t) {
        Some(b) => if b.len() == 64 {
            Some(b)
        } else {
            None
        },
        None => None,
    }
}

/// Hex text decoded into a 32-byte array, when it decodes to exactly 32 bytes.
pub fn hex_decode_32(s: &str) -> (r: Option<[u8; 32]>)
    ensures
        r matches Some(a) ==> hex_key_spec(utf8_bytes(s@)) == Some(a@),
        r is None ==> hex_key_spec(utf8_bytes(s@)) is None,
{
    match hex_decode(s) {
        Some(v) => {
            if v.len() == 32 {
                let mut a = [0u8; 32];
                let mut i: usize = 0;
                while i < 32
                    invariant
                        v@.len() == 32,
                        0 <= i <= 32,
                        forall|k: int| 0 <= k < i ==> a@[k] == v@[k],
                    decreases 32 - i,
                {
                    a[i] = v[i];
                    i = i + 1;
                }
                assert(a@ =~= v@);
                Some(a)
            } else {
                None
            }
        },
        None => None,
    }
}

/// Hex text decoded into a 64-byte array, when it decodes to exactly 64 bytes.
pub fn hex_decode_64(s: &str) -> (r: Option<[u8; 64]>)
    ensures
        r matches Some(a) ==> hex_sig_spec(utf8_bytes(s@)) == Some(a@),
        r is None ==> hex_sig_spec(utf8_bytes(s@)) is None,
{
    match hex_decode(s) {
        Some(v) => {
            if v.len() == 64 {
                let mut a = [0u8; 64];
                let mut i: usize = 0;
                while i < 64
                    invariant
                        v@.len() == 64,
                        0 <= i <= 64,
                        forall|k: int| 0 <= k < i ==> a@[k] == v@[k],
                    decreases 64 - i,
                {
                    a[i] = v[i];
                    i = i + 1;
                }
                assert(a@ =~= v@);
                Some(a)
            } else {
                None
            }
        },
        None => None,
    }
}

/// Decimal digits (ASCII) of a natural number, as `{}` formats it.
pub open spec fn dec(n: nat) -> Seq<u8>
    decreases n,
{
    if n < 10 {
        seq![(48 + n) as u8]
    } else {
        dec(n / 10) + seq![(48 + n % 10) as u8]
    }
}

/// `{:0w}` formatting: the decimal digits, left-padded with `'0'` to width `w`.
pub open spec fn dec_padded(n: nat, w: nat) -> Seq<u8> {
    if dec(n).len() < w {
        Seq::new((w - dec(n).len()) as nat, |i: int| 48u8) + dec(n)
    } else {
        dec(n)
    }
}

/// Appends the decimal digits of `n`.
pub fn push_decimal(out: &mut Vec<u8>, n: u64)
    ensures
        final(out)@ == old(out)@ + dec(n as nat),
    decreases n,
{
    if n >= 10 {
        push_decimal(out, n / 10);
    }
    out.push(48 + (n % 10) as u8);
    proof {
        if n >= 10 {
            assert(old(out)@ + dec(n as nat) =~= old(out)@ + dec((n / 10) as nat) + seq![(48 + n % 10) as u8]);
        } else {
            assert(old(out)@ + dec(n as nat) =~= old(out)@ + seq![(48 + n) as u8]);
        }
    }
}

/// The number of decimal digits of `n`.
pub fn decimal_len(n: u64) -> (len: usize)
    ensures
        len == dec(n as nat).len(),
        len <= 20,
    decreases n,
{
    proof {
        reveal_with_fuel(pow10, 21);
        assert(pow10(20) == 100000000000000000000nat);
        lemma_dec_len_bound(n as nat, 20);
    }
    if n < 10 {
        1
    } else {
        decimal_len(n / 10) + 1
    }
}

/// `n < 10^w` has at most `w` digits (for `w >= 1`).
pub proof fn lemma_dec_len_bound(n: nat, w: nat)
    requires
        w >= 1,
        n < pow10(w),
    ensures
        dec(n).len() <= w,
    decreases n,
{
    if n >= 10 {
        assert(w >= 2) by {
            if w == 1 {
                assert(pow10(1) == 10 * pow10(0));
            }
        }
        assert(pow10(w) == 10 * pow10((w - 1) as nat));
        assert(n / 10 < pow10((w - 1) as nat));
        lemma_dec_len_bound(n / 10, (w - 1) as nat);
    }
}

/// Powers of ten.
pub open spec fn pow10(w: nat) -> nat
    decreases w,
{
    if w == 0 {
        1
    } else {
        10 * pow10((w - 1) as nat)
    }
}

/// Appends `n` formatted as `{:0w}`.
pub fn push_padded_decimal(out: &mut Vec<u8>, n: u64, w: usize)
    ensures
        final(out)@ == old(out)@ + dec_padded(n as nat, w as nat),
{
    let len = decimal_len(n);
    let ghost start = out@;
    if len < w {
        let mut i: usize = 0;
        while i < w - len
            invariant
                len < w,
                0 <= i <= w - len,
                out@ == start + Seq::new(i as nat, |k: int| 48u8),
            decreases w - len - i,
        {
            out.push(48);
            i = i + 1;
            assert(out@ =~= start + Seq::new(i as nat, |k: int| 48u8));
        }
    }
    push_decimal(out, n);
    assert(out@ =~= start + dec_padded(n as nat, w as nat));
}

/// Every byte of a decimal is an ASCII digit.
pub proof fn lemma_dec_digits(n: nat)
    ensures
        forall|i: int| 0 <= i < dec(n).len() ==> 48 <= #[trigger] dec(n)[i] <= 57,
        dec(n).len() >= 1,
    decreases n,
{
    if n >= 10 {
        lemma_dec_digits(n / 10);
    }
}

/// Every byte of a padded decimal is an ASCII digit; below `10^w` it has exactly `w`.
pub proof fn lemma_dec_padded_digits(n: nat, w: nat)
    ensures
        forall|i: int| 0 <= i < dec_padded(n, w).len() ==> 48 <= #[trigger] dec_padded(n, w)[i] <= 57,
        w >= 1 && n < pow10(w) ==> dec_padded(n, w).len() == w,
{
    lemma_dec_digits(n);
    if w >= 1 && n < pow10(w) {
        lemma_dec_len_bound(n, w);
    }
    assert forall|i: int| 0 <= i < dec_padded(n, w).len() implies 48 <= #[trigger] dec_padded(n, w)[i] <= 57 by {
        if dec(n).len() < w {
            let z = Seq::new((w - dec(n).len()) as nat, |k: int| 48u8);
            if i >= z.len() {
                assert(dec_padded(n, w)[i] == dec(n)[i - z.len()]);
            }
        }
    }
}

/// The value of a string of decimal digits.
pub open spec fn digits_value(d: Seq<u8>) -> nat
    decreases d.len(),
{
    if d.len() == 0 {
        0
    } else {
        digits_value(d.drop_last()) * 10 + (d.last() - 48) as nat
    }
}

/// Every byte is an ASCII digit.
pub open spec fn all_digits(d: Seq<u8>) -> bool {
    forall|i: int| 0 <= i < d.len() ==> 48 <= #[trigger] d[i] <= 57
}

/// Unsigned-integer parsing as Rust's `str::parse` does it: an optional `+`, then one or
/// more ASCII digits; the number they denote (before any bound on the type).
pub open spec fn parse_unsigned_spec(t: Seq<u8>) -> Option<nat> {
    let d = if t.len() > 0 && t[0] == 43u8 {
        t.drop_first()
    } else {
        t
    };
    if d.len() == 0 || !all_digits(d) {
        None
    } else {
        Some(digits_value(d))
    }
}

/// A longer digit string is worth at least as much as its prefix.
proof fn lemma_digits_value_prefix(d: Seq<u8>, k: int)
    requires
        0 <= k <= d.len(),
        all_digits(d),
    ensures
        digits_value(d.take(k)) <= digits_value(d),
    decreases d.len(),
{
    if k < d.len() {
        assert(d.drop_last().take(k) =~= d.take(k));
        lemma_digits_value_prefix(d.drop_last(), k);
    } else {
        assert(d.take(k) =~= d);
    }
}

/// `s.parse::<u64>()`: the value, or `None` where Rust's parsing fails (no digits, a
/// byte other than a digit after the optional `+`, or a value above `u64::MAX`).
pub fn parse_u64(s: &str) -> (r: Option<u64>)
    ensures
        match parse_unsigned_spec(utf8_bytes(s@)) {
            Some(n) => if n <= u64::MAX {
                r == Some(n as u64)
            } else {
                r is None
            },
            None => r is None,
        },
{
    let t = s.as_bytes();
    let ghost tb = t@;
    let start: usize = if t.len() > 0 && t[0] == 43u8 {
        1
    } else {
        0
    };
    let ghost d = if tb.len() > 0 && tb[0] == 43u8 {
        tb.drop_first()
    } else {
        tb
    };
    assert(d =~= tb.skip(start as int));
    if start >= t.len() {
        return None;
    }
    let mut acc: u64 = 0;
    let mut i: usize = start;
    while i < t.len()
        invariant
            start <= i <= tb.len(),
            t@ == tb,
            tb == utf8_bytes(s@),
            d == (if tb.len() > 0 && tb[0] == 43u8 {
                tb.drop_first()
            } else {
                tb
            }),
            d == tb.skip(start as int),
            all_digits(d.take(i - start)),
            acc as nat == digits_value(d.take(i - start)),
        decreases tb.len() - i,
    {
        let c = t[i];
        proof {
            assert(d.take(i + 1 - start).drop_last() =~= d.take(i - start));
            assert(d[i - start] == c);
        }
        if c < 48 || c > 57 {
            proof {
                assert(!(48 <= d[i - start] <= 57));
                assert(!all_digits(d));
                assert(tb == utf8_bytes(s@));
                assert(parse_unsigned_spec(tb) is None);
            }
            return None;
        }
        let digit = (c - 48) as u64;
        if acc > (u64::MAX - digit) / 10 {
            proof {
                assert(all_digits(d.take(i + 1 - start)));
                if all_digits(d) {
                    lemma_digits_value_prefix(d, i + 1 - start);
                    assert(d.take(i + 1 - start).take(i + 1 - start) =~= d.take(i + 1 - start));
                    assert(digits_value(d.take(i + 1 - start)) == acc * 10 + digit);
                    assert(acc * 10 + digit > u64::MAX) by (nonlinear_arith)
                        requires acc > (u64::MAX - digit) / 10, digit <= 9;
                    assert(digits_value(d) > u64::MAX);
                    assert(tb == utf8_bytes(s@));
                    assert(d.len() > 0);
                    assert(parse_unsigned_spec(tb) == Some(digits_value(d)));
                }
            }
            return None;
        }
        assert(acc * 10 + digit <= u64::MAX) by (nonlinear_arith)
            requires acc <= (u64::MAX - digit) / 10, digit <= 9;
        acc = acc * 10 + digit;
        i = i + 1;
        proof {
            assert(all_digits(d.take(i - start)));
        }
    }
    assert(d.take(tb.len() - start) =~= d);
    Some(acc)
}

/// The decimal digits of a number are worth that number.
pub proof fn lemma_dec_value(n: nat)
    ensures
        digits_value(dec(n)) == n,
    decreases n,
{
    reveal_with_fuel(digits_value, 2);
    let d = dec(n);
    if n >= 10 {
        lemma_dec_value(n / 10);
        assert(d.drop_last() =~= dec(n / 10));
        assert(d.last() == (48 + n % 10) as u8);
        assert(n == (n / 10) * 10 + n % 10);
        assert(digits_value(d) == digits_value(d.drop_last()) * 10 + (d.last() - 48) as nat);
    } else {
        assert(d.drop_last() =~= Seq::<u8>::empty());
        assert(d.last() == (48 + n) as u8);
    }
}

} // verus!
