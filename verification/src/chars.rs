//! Text handling at the level of characters, as `str`'s methods do it: whitespace,
//! trimming, prefixes, splitting at a character and into lines.

use vstd::prelude::*;

verus! {

/// Rust's `char::is_whitespace`: the characters with Unicode's `White_Space` property.
pub open spec fn is_whitespace_spec(c: char) -> bool {
    let u = c as u32;
    ||| 9 <= u <= 13
    ||| u == 32
    ||| u == 0x85
    ||| u == 0xA0
    ||| u == 0x1680
    ||| 0x2000 <= u <= 0x200A
    ||| u == 0x2028
    ||| u == 0x2029
    ||| u == 0x202F
    ||| u == 0x205F
    ||| u == 0x3000
}

/// `c.is_whitespace()`.
pub fn is_whitespace(c: char) -> (r: bool)
    ensures
        r == is_whitespace_spec(c),
{
    let u = c as u32;
    (9 <= u && u <= 13) || u == 32 || u == 0x85 || u == 0xA0 || u == 0x1680 || (0x2000 <= u && u
        <= 0x200A) || u == 0x2028 || u == 0x2029 || u == 0x202F || u == 0x205F || u == 0x3000
}

/// The characters after the leading ones that satisfy `is_whitespace`.
pub open spec fn trim_start_spec(c: Seq<char>) -> Seq<char>
    decreases c.len(),
{
    if c.len() > 0 && is_whitespace_spec(c[0]) {
        trim_start_spec(c.drop_first())
    } else {
        c
    }
}

/// The characters before the trailing ones that satisfy `is_whitespace`.
pub open spec fn trim_end_spec(c: Seq<char>) -> Seq<char>
    decreases c.len(),
{
    if c.len() > 0 && is_whitespace_spec(c.last()) {
        trim_end_spec(c.drop_last())
    } else {
        c
    }
}

/// `str::trim`: leading and trailing whitespace removed.
pub open spec fn trim_spec(c: Seq<char>) -> Seq<char> {
    trim_end_spec(trim_start_spec(c))
}

/// `s.trim()`.
pub fn trim(s: &str) -> (r: &str)
    ensures
        r@ == trim_spec(s@),
{
    let n = s.unicode_len();
    let mut i: usize = 0;
    assert(s@.skip(0) =~= s@);
    while i < n && is_whitespace(s.get_char(i))
        invariant
            n == s@.len(),
            0 <= i <= n,
            trim_start_spec(s@) == trim_start_spec(s@.skip(i as int)),
        decreases n - i,
    {
        proof {
            assert(s@.skip(i as int).drop_first() =~= s@.skip(i + 1));
        }
        i = i + 1;
    }
    proof {
        if i < n {
            assert(s@.skip(i as int)[0] == s@[i as int]);
        }
        assert(trim_start_spec(s@) == s@.skip(i as int));
    }
    let mut j: usize = n;
    while j > i && is_whitespace(s.get_char(j - 1))
        invariant
            n == s@.len(),
            0 <= i <= j <= n,
            trim_start_spec(s@) == s@.skip(i as int),
            trim_spec(s@) == trim_end_spec(s@.subrange(i as int, j as int)),
        decreases j,
    {
        proof {
            assert(s@.subrange(i as int, j as int).drop_last() =~= s@.subrange(i as int, j - 1));
        }
        j = j - 1;
    }
    proof {
        assert(s@.skip(i as int) =~= s@.subrange(i as int, n as int));
    }
    s.substring_char(i, j)
}

/// `str::strip_prefix` with a string pattern.
pub open spec fn strip_prefix_spec(c: Seq<char>, p: Seq<char>) -> Option<Seq<char>> {
    if p.len() <= c.len() && c.take(p.len() as int) == p {
        Some(c.skip(p.len() as int))
    } else {
        None
    }
}

/// `s.strip_prefix(p)`.
pub fn strip_prefix<'a>(s: &'a str, p: &str) -> (r: Option<&'a str>)
    ensures
        match strip_prefix_spec(s@, p@) {
            Some(t) => r matches Some(x) && x@ == t,
            None => r is None,
        },
{
    let n = s.unicode_len();
    let m = p.unicode_len();
    if m > n {
        return None;
    }
    let mut i: usize = 0;
    while i < m
        invariant
            n == s@.len(),
            m == p@.len(),
            m <= n,
            0 <= i <= m,
            forall|k: int| 0 <= k < i ==> s@[k] == p@[k],
        decreases m - i,
    {
        if s.get_char(i) != p.get_char(i) {
            proof {
                assert(s@.take(m as int)[i as int] != p@[i as int]);
            }
            return None;
        }
        i = i + 1;
    }
    assert(s@.take(m as int) =~= p@);
    proof {
        assert(s@.skip(m as int) =~= s@.subrange(m as int, n as int));
    }
    Some(s.substring_char(m, n))
}

/// The characters after the leading ones equal to `x`.
pub open spec fn trim_start_char_spec(c: Seq<char>, x: char) -> Seq<char>
    decreases c.len(),
{
    if c.len() > 0 && c[0] == x {
        trim_start_char_spec(c.drop_first(), x)
    } else {
        c
    }
}

/// The characters before the trailing ones equal to `x`.
pub open spec fn trim_end_char_spec(c: Seq<char>, x: char) -> Seq<char>
    decreases c.len(),
{
    if c.len() > 0 && c.last() == x {
        trim_end_char_spec(c.drop_last(), x)
    } else {
        c
    }
}

/// `str::trim_matches(x)` for one character.
pub open spec fn trim_matches_spec(c: Seq<char>, x: char) -> Seq<char> {
    trim_end_char_spec(trim_start_char_spec(c, x), x)
}

/// `s.trim_matches(x)`.
pub fn trim_matches(s: &str, x: char) -> (r: &str)
    ensures
        r@ == trim_matches_spec(s@, x),
{
    let n = s.unicode_len();
    let mut i: usize = 0;
    assert(s@.skip(0) =~= s@);
    while i < n && s.get_char(i) == x
        invariant
            n == s@.len(),
            0 <= i <= n,
            trim_start_char_spec(s@, x) == trim_start_char_spec(s@.skip(i as int), x),
        decreases n - i,
    {
        proof {
            assert(s@.skip(i as int).drop_first() =~= s@.skip(i + 1));
        }
        i = i + 1;
    }
    proof {
        if i < n {
            assert(s@.skip(i as int)[0] == s@[i as int]);
        }
        assert(trim_start_char_spec(s@, x) == s@.skip(i as int));
    }
    let mut j: usize = n;
    while j > i && s.get_char(j - 1) == x
        invariant
            n == s@.len(),
            0 <= i <= j <= n,
            trim_start_char_spec(s@, x) == s@.skip(i as int),
            trim_matches_spec(s@, x) == trim_end_char_spec(s@.subrange(i as int, j as int), x),
        decreases j,
    {
        proof {
            assert(s@.subrange(i as int, j as int).drop_last() =~= s@.subrange(i as int, j - 1));
        }
        j = j - 1;
    }
    proof {
        assert(s@.skip(i as int) =~= s@.subrange(i as int, n as int));
    }
    s.substring_char(i, j)
}

/// The index of the first `x` in `c` at or after `from`, or `c.len()` when none.
pub open spec fn find_from(c: Seq<char>, x: char, from: int) -> int
    decreases c.len() - from,
{
    if from >= c.len() {
        c.len() as int
    } else if c[from] == x {
        from
    } else {
        find_from(c, x, from + 1)
    }
}

pub proof fn lemma_find_from_bounds(c: Seq<char>, x: char, from: int)
    requires
        0 <= from <= c.len(),
    ensures
        from <= find_from(c, x, from) <= c.len(),
        find_from(c, x, from) < c.len() ==> c[find_from(c, x, from)] == x,
        forall|k: int| from <= k < find_from(c, x, from) ==> c[k] != x,
    decreases c.len() - from,
{
    if from < c.len() && c[from] != x {
        lemma_find_from_bounds(c, x, from + 1);
    }
}

/// `c.split(x).nth(1)`: the text between the first `x` and the next one (or the end),
/// when there is a first `x`.
pub open spec fn second_field_spec(c: Seq<char>, x: char) -> Option<Seq<char>> {
    let a = find_from(c, x, 0);
    if a >= c.len() {
        None
    } else {
        Some(c.subrange(a + 1, find_from(c, x, a + 1)))
    }
}

/// `s.split(x).nth(1)`.
pub fn second_field<'a>(s: &'a str, x: char) -> (r: Option<&'a str>)
    ensures
        match second_field_spec(s@, x) {
            Some(t) => r matches Some(f) && f@ == t,
            None => r is None,
        },
{
    let n = s.unicode_len();
    let mut a: usize = 0;
    while a < n && s.get_char(a) != x
        invariant
            n == s@.len(),
            0 <= a <= n,
            find_from(s@, x, 0) == find_from(s@, x, a as int),
        decreases n - a,
    {
        a = a + 1;
    }
    if a >= n {
        return None;
    }
    let mut b: usize = a + 1;
    proof {
        assert(find_from(s@, x, a as int) == a);
    }
    while b < n && s.get_char(b) != x
        invariant
            n == s@.len(),
            a < b <= n,
            find_from(s@, x, 0) == a,
            find_from(s@, x, a + 1) == find_from(s@, x, b as int),
        decreases n - b,
    {
        b = b + 1;
    }
    Some(s.substring_char(a + 1, b))
}

/// A line without its terminator: `\n` removed, then a `\r` before it.
pub open spec fn line_body(seg: Seq<char>) -> Seq<char> {
    if seg.len() > 0 && seg.last() == '\r' {
        seg.drop_last()
    } else {
        seg
    }
}

/// `str::lines`: the text split after each `\n`, each line without its `\n` and a `\r`
/// just before it; the final line ending is optional.
pub open spec fn lines_spec(c: Seq<char>) -> Seq<Seq<char>>
    decreases c.len(),
{
    if c.len() == 0 {
        Seq::empty()
    } else {
        let k = find_from(c, '\n', 0);
        if k >= c.len() {
            seq![c]
        } else {
            proof {
                lemma_find_from_bounds(c, '\n', 0);
            }
            seq![line_body(c.take(k))] + lines_spec(c.skip(k + 1))
        }
    }
}

/// `s.lines()`, as owned strings.
pub fn lines(s: &str) -> (r: Vec<String>)
    ensures
        r@.map_values(|l: String| l@) == lines_spec(s@),
{
    let n = s.unicode_len();
    let mut out: Vec<String> = Vec::new();
    let mut start: usize = 0;
    proof {
        assert(s@.skip(0) =~= s@);
    }
    while start < n
        invariant
            n == s@.len(),
            0 <= start <= n,
            out@.map_values(|l: String| l@) + lines_spec(s@.skip(start as int)) == lines_spec(s@),
        decreases n - start,
    {
        let ghost rest = s@.skip(start as int);
        let mut k: usize = start;
        while k < n && s.get_char(k) != '\n'
            invariant
                n == s@.len(),
                start <= k <= n,
                rest == s@.skip(start as int),
                find_from(rest, '\n', 0) == find_from(rest, '\n', k - start),
            decreases n - k,
        {
            proof {
                assert(rest[k - start] == s@[k as int]);
            }
            k = k + 1;
        }
        proof {
            if k < n {
                assert(rest[k - start] == s@[k as int]);
            }
            assert(find_from(rest, '\n', 0) == k - start);
            lemma_find_from_bounds(rest, '\n', 0);
        }
        let mut end = k;
        if k < n && end > start && s.get_char(end - 1) == '\r' {
            end = end - 1;
        }
        let line = String::from_str(s.substring_char(start, end));
        let ghost before = out@.map_values(|l: String| l@);
        out.push(line);
        proof {
            assert(out@.map_values(|l: String| l@) =~= before.push(line@));
            if k >= n {
                assert(rest =~= s@.subrange(start as int, n as int));
                assert(lines_spec(rest) == seq![rest]);
                assert(s@.skip(n as int) =~= Seq::<char>::empty());
            } else {
                assert(rest.take(k - start) =~= s@.subrange(start as int, k as int));
                assert(rest.skip(k - start + 1) =~= s@.skip(k + 1));
                assert(line@ == line_body(rest.take(k - start)));
            }
        }
        start = if k < n {
            k + 1
        } else {
            n
        };
        proof {
            assert(before.push(line@) + lines_spec(s@.skip(start as int)) =~= before + lines_spec(rest));
        }
    }
    proof {
        assert(s@.skip(n as int) =~= Seq::<char>::empty());
        assert(out@.map_values(|l: String| l@) =~= lines_spec(s@));
    }
    out
}

} // verus!
