//! Character-level text operations over `Seq<char>` models: trimming,
//! ASCII case folding, substring search, prefixes and decimal parsing.

use vstd::prelude::*;

verus! {

// ---------------------------------------------------------------------
// Specifications
// ---------------------------------------------------------------------

/// The Unicode `White_Space` property, which `char::is_whitespace` and
/// `str::trim` follow.
pub open spec fn is_ws(c: char) -> bool {
    let u = c as u32;
    ||| 0x09 <= u && u <= 0x0d
    ||| u == 0x20
    ||| u == 0x85
    ||| u == 0xa0
    ||| u == 0x1680
    ||| 0x2000 <= u && u <= 0x200a
    ||| u == 0x2028
    ||| u == 0x2029
    ||| u == 0x202f
    ||| u == 0x205f
    ||| u == 0x3000
}

pub open spec fn trim_start_seq(s: Seq<char>) -> Seq<char>
    decreases s.len(),
{
    if s.len() > 0 && is_ws(s[0]) {
        trim_start_seq(s.drop_first())
    } else {
        s
    }
}

pub open spec fn trim_end_seq(s: Seq<char>) -> Seq<char>
    decreases s.len(),
{
    if s.len() > 0 && is_ws(s.last()) {
        trim_end_seq(s.drop_last())
    } else {
        s
    }
}

/// What `str::trim` leaves of a string.
pub open spec fn trim_seq(s: Seq<char>) -> Seq<char> {
    trim_end_seq(trim_start_seq(s))
}

/// ASCII lower-casing of one character; every other character is kept.
pub open spec fn lower_char(c: char) -> char {
    if 'A' <= c && c <= 'Z' {
        ((c as u32) + 32) as char
    } else {
        c
    }
}

/// What `str::to_ascii_lowercase` makes of a string.
pub open spec fn lower_seq(s: Seq<char>) -> Seq<char> {
    s.map_values(|c: char| lower_char(c))
}

/// `needle` occurs in `hay` at position `i`.
pub open spec fn occurs_at(hay: Seq<char>, needle: Seq<char>, i: int) -> bool {
    0 <= i && i + needle.len() <= hay.len() && hay.subrange(i, i + needle.len()) == needle
}

/// `needle` occurs somewhere in `hay` (`str::contains`).
pub open spec fn seq_contains(hay: Seq<char>, needle: Seq<char>) -> bool {
    exists|i: int| occurs_at(hay, needle, i)
}

pub open spec fn starts_with_seq(s: Seq<char>, p: Seq<char>) -> bool {
    p.len() <= s.len() && s.subrange(0, p.len() as int) == p
}

pub open spec fn ends_with_seq(s: Seq<char>, p: Seq<char>) -> bool {
    p.len() <= s.len() && s.subrange(s.len() - p.len(), s.len() as int) == p
}

pub open spec fn is_digit(c: char) -> bool {
    '0' <= c && c <= '9'
}

pub open spec fn digit_value(c: char) -> nat {
    ((c as u32) - ('0' as u32)) as nat
}

pub open spec fn all_digits(s: Seq<char>) -> bool {
    forall|i: int| 0 <= i < s.len() ==> is_digit(#[trigger] s[i])
}

/// The number that a string of decimal digits denotes.
pub open spec fn digits_value(s: Seq<char>) -> nat
    decreases s.len(),
{
    if s.len() == 0 {
        0
    } else {
        digits_value(s.drop_last()) * 10 + digit_value(s.last())
    }
}

/// What `str::parse::<u64>` accepts: an optional `+`, at least one decimal
/// digit and nothing else, with a value that fits in 64 bits.
pub open spec fn parse_u64_seq(s: Seq<char>) -> Option<u64> {
    let d = if s.len() > 0 && s[0] == '+' { s.drop_first() } else { s };
    if d.len() > 0 && all_digits(d) && digits_value(d) <= u64::MAX {
        Some(digits_value(d) as u64)
    } else {
        None
    }
}

/// Replaces every occurrence of the character `from` with `to`
/// (`str::replace` with a one-character pattern).
pub open spec fn replace_char_seq(s: Seq<char>, from: char, to: Seq<char>) -> Seq<char>
    decreases s.len(),
{
    if s.len() == 0 {
        Seq::empty()
    } else {
        replace_char_seq(s.drop_last(), from, to) + (if s.last() == from {
            to
        } else {
            seq![s.last()]
        })
    }
}

// ---------------------------------------------------------------------
// Trusted std operations
// ---------------------------------------------------------------------

/// `String::push`: appends one character to a string.
#[verifier::external_body]
pub fn push_char(s: &mut String, c: char)
    ensures
        final(s)@ == old(s)@.push(c),
{
    s.push(c);
}

// ---------------------------------------------------------------------
// Conversions
// ---------------------------------------------------------------------

/// The characters of a string slice, in order.
pub fn chars_of(s: &str) -> (out: Vec<char>)
    ensures
        out@ == s@,
{
    let mut out: Vec<char> = Vec::new();
    for c in it: s.chars()
        invariant
            out@ == it.seq().take(it.index() as int),
            it.seq() == s@,
    {
        out.push(c);
    }
    out
}

/// Appends characters to a string.
pub fn push_chars(s: &mut String, cs: &[char])
    ensures
        final(s)@ == old(s)@ + cs@,
{
    let ghost start = s@;
    for i in 0..cs.len()
        invariant
            s@ == start + cs@.subrange(0, i as int),
    {
        push_char(s, cs[i]);
        assert(cs@.subrange(0, i + 1) == cs@.subrange(0, i as int).push(cs@[i as int]));
    }
    assert(cs@.subrange(0, cs@.len() as int) == cs@);
}

/// A string holding exactly the given characters.
pub fn string_from_chars(cs: &[char]) -> (out: String)
    ensures
        out@ == cs@,
{
    let mut out = String::new();
    push_chars(&mut out, cs);
    out
}

/// Appends a string slice to a string.
pub fn push_str(s: &mut String, t: &str)
    ensures
        final(s)@ == old(s)@ + t@,
{
    let cs = chars_of(t);
    push_chars(s, cs.as_slice());
}

/// A new string holding a copy of a string slice.
pub fn to_owned_string(t: &str) -> (out: String)
    ensures
        out@ == t@,
{
    let mut out = String::new();
    push_str(&mut out, t);
    assert(out@ == Seq::<char>::empty() + t@);
    out
}

// ---------------------------------------------------------------------
// Whitespace and trimming
// ---------------------------------------------------------------------

/// `char::is_whitespace`.
pub fn is_whitespace(c: char) -> (r: bool)
    ensures
        r == is_ws(c),
{
    let u = c as u32;
    (0x09 <= u && u <= 0x0d) || u == 0x20 || u == 0x85 || u == 0xa0 || u == 0x1680 || (0x2000
        <= u && u <= 0x200a) || u == 0x2028 || u == 0x2029 || u == 0x202f || u == 0x205f || u
        == 0x3000
}

proof fn lemma_trim_start_step(s: Seq<char>, i: int)
    requires
        0 <= i < s.len(),
        is_ws(s[i]),
    ensures
        trim_start_seq(s.subrange(i, s.len() as int)) == trim_start_seq(
            s.subrange(i + 1, s.len() as int),
        ),
{
    let t = s.subrange(i, s.len() as int);
    assert(t.drop_first() == s.subrange(i + 1, s.len() as int));
}

proof fn lemma_trim_end_step(s: Seq<char>, a: int, j: int)
    requires
        0 <= a < j <= s.len(),
        is_ws(s[j - 1]),
    ensures
        trim_end_seq(s.subrange(a, j)) == trim_end_seq(s.subrange(a, j - 1)),
{
    let t = s.subrange(a, j);
    assert(t.drop_last() == s.subrange(a, j - 1));
}

/// The bounds of what `str::trim` keeps: `s[a..b]`.
pub fn trim_bounds(s: &[char]) -> (r: (usize, usize))
    ensures
        r.0 <= r.1 <= s@.len(),
        s@.subrange(r.0 as int, r.1 as int) == trim_seq(s@),
{
    let n = s.len();
    let mut a: usize = 0;
    assert(s@.subrange(0, n as int) == s@);
    while a < n && is_whitespace(s[a])
        invariant
            a <= n,
            n == s@.len(),
            trim_start_seq(s@) == trim_start_seq(s@.subrange(a as int, n as int)),
        decreases n - a,
    {
        proof {
            lemma_trim_start_step(s@, a as int);
        }
        a = a + 1;
    }
    assert(trim_start_seq(s@) == s@.subrange(a as int, n as int));
    let mut b: usize = n;
    while b > a && is_whitespace(s[b - 1])
        invariant
            a <= b <= n,
            n == s@.len(),
            trim_start_seq(s@) == s@.subrange(a as int, n as int),
            trim_seq(s@) == trim_end_seq(s@.subrange(a as int, b as int)),
        decreases b - a,
    {
        proof {
            lemma_trim_end_step(s@, a as int, b as int);
        }
        b = b - 1;
    }
    (a, b)
}

/// `str::trim`, on characters.
pub fn trim_chars(s: &[char]) -> (out: Vec<char>)
    ensures
        out@ == trim_seq(s@),
{
    let (a, b) = trim_bounds(s);
    slice_chars(s, a, b)
}

/// A copy of `s[a..b]`.
pub fn slice_chars(s: &[char], a: usize, b: usize) -> (out: Vec<char>)
    requires
        a <= b <= s@.len(),
    ensures
        out@ == s@.subrange(a as int, b as int),
{
    let mut out: Vec<char> = Vec::new();
    let mut i = a;
    while i < b
        invariant
            a <= i <= b,
            b <= s@.len(),
            out@ == s@.subrange(a as int, i as int),
        decreases b - i,
    {
        out.push(s[i]);
        assert(s@.subrange(a as int, i + 1) == s@.subrange(a as int, i as int).push(s@[i as int]));
        i = i + 1;
    }
    out
}

/// Whether the text holds nothing but whitespace (`s.trim().is_empty()`).
pub fn is_blank(s: &[char]) -> (r: bool)
    ensures
        r == (trim_seq(s@).len() == 0),
{
    let (a, b) = trim_bounds(s);
    a == b
}

// ---------------------------------------------------------------------
// Case folding and comparisons
// ---------------------------------------------------------------------

/// `char::to_ascii_lowercase`.
pub fn ascii_lower_char(c: char) -> (r: char)
    ensures
        r == lower_char(c),
{
    if 'A' <= c && c <= 'Z' {
        let b: u8 = c as u8;
        (b + 32) as char
    } else {
        c
    }
}

/// `str::to_ascii_lowercase`, on characters.
pub fn ascii_lowercase(s: &[char]) -> (out: Vec<char>)
    ensures
        out@ == lower_seq(s@),
{
    let mut out: Vec<char> = Vec::new();
    for i in 0..s.len()
        invariant
            out@.len() == i,
            forall|k: int| 0 <= k < i ==> out@[k] == lower_char(s@[k]),
    {
        let c = ascii_lower_char(s[i]);
        out.push(c);
    }
    assert(out@ == lower_seq(s@));
    out
}

/// Character-wise equality of two sequences.
pub fn chars_eq(a: &[char], b: &[char]) -> (r: bool)
    ensures
        r == (a@ == b@),
{
    if a.len() != b.len() {
        return false;
    }
    let mut i: usize = 0;
    while i < a.len()
        invariant
            a@.len() == b@.len(),
            i <= a@.len(),
            forall|k: int| 0 <= k < i ==> a@[k] == b@[k],
        decreases a.len() - i,
    {
        if a[i] != b[i] {
            return false;
        }
        i = i + 1;
    }
    assert(a@ == b@);
    true
}

/// `str::eq_ignore_ascii_case`.
pub fn eq_ignore_ascii_case(a: &[char], b: &[char]) -> (r: bool)
    ensures
        r == (lower_seq(a@) == lower_seq(b@)),
{
    let la = ascii_lowercase(a);
    let lb = ascii_lowercase(b);
    chars_eq(la.as_slice(), lb.as_slice())
}

/// Whether `needle` occurs in `hay` at position `i`.
pub fn occurs_at_exec(hay: &[char], needle: &[char], i: usize) -> (r: bool)
    ensures
        r == occurs_at(hay@, needle@, i as int),
{
    if i > hay.len() || needle.len() > hay.len() - i {
        return false;
    }
    let mut k: usize = 0;
    while k < needle.len()
        invariant
            i + needle@.len() <= hay@.len(),
            hay@.len() == hay.len(),
            k <= needle@.len(),
            forall|m: int| 0 <= m < k ==> hay@[i + m] == needle@[m],
        decreases needle.len() - k,
    {
        if hay[i + k] != needle[k] {
            assert(hay@.subrange(i as int, i + needle@.len())[k as int] != needle@[k as int]);
            return false;
        }
        k = k + 1;
    }
    assert(hay@.subrange(i as int, i + needle@.len()) == needle@);
    true
}

/// `str::contains` with a string pattern.
pub fn contains(hay: &[char], needle: &[char]) -> (r: bool)
    ensures
        r == seq_contains(hay@, needle@),
{
    if needle.len() > hay.len() {
        return false;
    }
    if needle.len() == 0 {
        assert(hay@.subrange(0, 0) == needle@);
        assert(occurs_at(hay@, needle@, 0));
        return true;
    }
    let last = hay.len() - needle.len();
    let mut i: usize = 0;
    while i <= last
        invariant
            last + needle@.len() == hay@.len(),
            needle@.len() > 0,
            hay@.len() == hay.len(),
            i <= last + 1,
            forall|k: int| 0 <= k < i ==> !occurs_at(hay@, needle@, k),
        decreases last + 1 - i,
    {
        if occurs_at_exec(hay, needle, i) {
            return true;
        }
        i = i + 1;
    }
    assert forall|k: int| !occurs_at(hay@, needle@, k) by {
        if 0 <= k && k < i {
        }
    }
    false
}

/// `str::contains` with a string-slice needle.
pub fn contains_str(hay: &[char], needle: &str) -> (r: bool)
    ensures
        r == seq_contains(hay@, needle@),
{
    let n = chars_of(needle);
    contains(hay, n.as_slice())
}

/// Whether the character occurs in the text.
pub fn contains_char(s: &[char], c: char) -> (r: bool)
    ensures
        r == s@.contains(c),
{
    for i in 0..s.len()
        invariant
            forall|k: int| 0 <= k < i ==> s@[k] != c,
    {
        if s[i] == c {
            return true;
        }
    }
    false
}

/// `str::starts_with` with a string pattern.
pub fn starts_with(s: &[char], p: &[char]) -> (r: bool)
    ensures
        r == starts_with_seq(s@, p@),
{
    occurs_at_exec(s, p, 0)
}

/// `str::ends_with` with a string pattern.
pub fn ends_with(s: &[char], p: &[char]) -> (r: bool)
    ensures
        r == ends_with_seq(s@, p@),
{
    if p.len() > s.len() {
        return false;
    }
    occurs_at_exec(s, p, s.len() - p.len())
}

// ---------------------------------------------------------------------
// Decimal numbers
// ---------------------------------------------------------------------

pub proof fn lemma_digits_value_prefix(s: Seq<char>, i: int)
    requires
        0 <= i <= s.len(),
        all_digits(s),
    ensures
        digits_value(s.subrange(0, i)) <= digits_value(s),
    decreases s.len() - i,
{
    if i < s.len() {
        lemma_digits_value_prefix(s, i + 1);
        let p = s.subrange(0, i + 1);
        assert(p.drop_last() == s.subrange(0, i));
    } else {
        assert(s.subrange(0, i) == s);
    }
}

/// The value of a run of decimal digits, if it fits in 64 bits.
pub fn digits_to_u64(d: &[char]) -> (r: Option<u64>)
    requires
        all_digits(d@),
    ensures
        r == (if digits_value(d@) <= u64::MAX {
            Some(digits_value(d@) as u64)
        } else {
            None::<u64>
        }),
{
    let mut v: u64 = 0;
    let mut i: usize = 0;
    while i < d.len()
        invariant
            i <= d@.len(),
            all_digits(d@),
            v == digits_value(d@.subrange(0, i as int)),
        decreases d.len() - i,
    {
        let ghost p = d@.subrange(0, i as int + 1);
        assert(p.drop_last() == d@.subrange(0, i as int));
        assert(is_digit(d@[i as int]));
        let dv: u32 = (d[i] as u32) - ('0' as u32);
        if v > (u64::MAX - (dv as u64)) / 10 {
            proof {
                assert(digits_value(p) == v * 10 + dv) by (nonlinear_arith)
                    requires
                        digits_value(p) == digits_value(p.drop_last()) * 10 + dv,
                        v == digits_value(p.drop_last()),
                ;
                assert(v * 10 + dv > u64::MAX) by (nonlinear_arith)
                    requires
                        v > (u64::MAX - dv) / 10,
                        dv <= 9,
                ;
                lemma_digits_value_prefix(d@, i as int + 1);
            }
            return None;
        }
        proof {
            assert(v * 10 + dv <= u64::MAX) by (nonlinear_arith)
                requires
                    v <= (u64::MAX - dv) / 10,
                    dv <= 9,
            ;
        }
        v = v * 10 + (dv as u64);
        i = i + 1;
    }
    assert(d@.subrange(0, d@.len() as int) == d@);
    Some(v)
}

/// `str::parse::<u64>`: `Some` exactly when the text is an optional `+`
/// followed by decimal digits whose value fits in 64 bits.
pub fn parse_u64(s: &[char]) -> (r: Option<u64>)
    ensures
        r == parse_u64_seq(s@),
{
    let start: usize = if s.len() > 0 && s[0] == '+' {
        1
    } else {
        0
    };
    let d = slice_chars(s, start, s.len());
    if start == 1 {
        assert(d@ == s@.drop_first());
    } else {
        assert(d@ == s@);
    }
    if d.len() == 0 {
        return None;
    }
    let mut i: usize = 0;
    while i < d.len()
        invariant
            i <= d@.len(),
            d@ == (if s@.len() > 0 && s@[0] == '+' { s@.drop_first() } else { s@ }),
            forall|k: int| 0 <= k < i ==> is_digit(#[trigger] d@[k]),
        decreases d.len() - i,
    {
        if !('0' <= d[i] && d[i] <= '9') {
            assert(!is_digit(d@[i as int]));
            return None;
        }
        i = i + 1;
    }
    digits_to_u64(d.as_slice())
}

/// Decimal rendering of a number, without leading zeros.
pub open spec fn decimal_seq(n: nat) -> Seq<char>
    decreases n,
{
    if n < 10 {
        seq![((n + 48) as u32) as char]
    } else {
        decimal_seq(n / 10).push((((n % 10) + 48) as u32) as char)
    }
}

/// Decimal text reads back as the number it was written from.
pub proof fn lemma_parse_decimal(n: nat)
    ensures
        decimal_seq(n).len() > 0,
        all_digits(decimal_seq(n)),
        digits_value(decimal_seq(n)) == n,
        n <= u64::MAX ==> parse_u64_seq(decimal_seq(n)) == Some(n as u64),
    decreases n,
{
    let s = decimal_seq(n);
    if n < 10 {
        assert(s.drop_last() =~= Seq::<char>::empty());
        assert(s.last() == s[0]);
        assert(is_digit(s[0]));
        assert(digit_value(s[0]) == n);
        assert(digits_value(s) == digits_value(s.drop_last()) * 10 + digit_value(s.last()));
    } else {
        lemma_parse_decimal(n / 10);
        let d = decimal_seq(n / 10);
        let c = (((n % 10) + 48) as u32) as char;
        assert(s == d.push(c));
        assert(s.drop_last() == d);
        assert(is_digit(c));
        assert(digit_value(c) == n % 10);
        assert forall|i: int| 0 <= i < s.len() implies is_digit(#[trigger] s[i]) by {
            if i < d.len() {
                assert(s[i] == d[i]);
            }
        }
        assert(s.last() == c);
        assert(digits_value(s) == digits_value(d) * 10 + digit_value(c));
        vstd::arithmetic::div_mod::lemma_fundamental_div_mod(n as int, 10);
    }
    if n <= u64::MAX {
        assert(s[0] != '+') by {
            assert(is_digit(s[0]));
        }
    }
}

/// `u64::to_string`.
pub fn u64_to_decimal(n: u64) -> (out: Vec<char>)
    ensures
        out@ == decimal_seq(n as nat),
    decreases n,
{
    if n < 10 {
        let c: char = ((n as u8) + 48) as char;
        let mut out: Vec<char> = Vec::new();
        out.push(c);
        out
    } else {
        let mut out = u64_to_decimal(n / 10);
        let c: char = (((n % 10) as u8) + 48) as char;
        out.push(c);
        out
    }
}

// ---------------------------------------------------------------------
// Replacement
// ---------------------------------------------------------------------

/// `str::replace` of one character with a string.
pub fn replace_char(s: &[char], from: char, to: &[char]) -> (out: Vec<char>)
    ensures
        out@ == replace_char_seq(s@, from, to@),
{
    let mut out: Vec<char> = Vec::new();
    for i in 0..s.len()
        invariant
            out@ == replace_char_seq(s@.subrange(0, i as int), from, to@),
    {
        let ghost before = out@;
        assert(s@.subrange(0, i + 1).drop_last() == s@.subrange(0, i as int));
        if s[i] == from {
            for k in 0..to.len()
                invariant
                    out@ == before + to@.subrange(0, k as int),
            {
                out.push(to[k]);
                assert(to@.subrange(0, k + 1) == to@.subrange(0, k as int).push(to@[k as int]));
            }
            assert(to@.subrange(0, to@.len() as int) == to@);
        } else {
            out.push(s[i]);
        }
    }
    assert(s@.subrange(0, s@.len() as int) == s@);
    out
}

} // verus!
