//! What the OAuth sign-in flows share: the cancellation flag, reading the
//! browser's callback request, and the page that answers it.

use vstd::prelude::*;
use crate::external::{query_pairs, spec_query_pairs};
use crate::text::{chars_of, decimal_seq, is_whitespace, is_ws, push_chars, push_str, slice_chars, to_owned_string, u64_to_decimal};

verus! {

// ---------------------------------------------------------------------
// Cancellation
// ---------------------------------------------------------------------

/// Whether the user asked the sign-in in progress to stop.
#[derive(Debug)]
pub struct OAuthCancellation {
    pub cancelled: bool,
}

impl OAuthCancellation {
    /// No cancellation requested.
    pub fn new() -> (r: OAuthCancellation)
        ensures
            !r.cancelled,
    {
        OAuthCancellation { cancelled: false }
    }

    /// Clears the flag when a new sign-in starts.
    pub fn reset(&mut self)
        ensures
            !final(self).cancelled,
    {
        self.cancelled = false;
    }

    /// Asks the sign-in in progress to stop.
    pub fn cancel(&mut self)
        ensures
            final(self).cancelled,
    {
        self.cancelled = true;
    }
}

// ---------------------------------------------------------------------
// Words and lines
// ---------------------------------------------------------------------

/// Length of the longest prefix of `s` whose characters all satisfy `p`.
pub open spec fn prefix_while(s: Seq<char>, p: spec_fn(char) -> bool) -> nat
    decreases s.len(),
{
    if s.len() == 0 || !p(s[0]) {
        0
    } else {
        1 + prefix_while(s.drop_first(), p)
    }
}

pub proof fn lemma_prefix_while_bound(s: Seq<char>, p: spec_fn(char) -> bool)
    ensures
        prefix_while(s, p) <= s.len(),
    decreases s.len(),
{
    if s.len() > 0 && p(s[0]) {
        lemma_prefix_while_bound(s.drop_first(), p);
    }
}

/// The run that starts at `i` and ends at `j` is the longest prefix of
/// `s.skip(i)` that satisfies `p`.
pub proof fn lemma_prefix_while_at(s: Seq<char>, p: spec_fn(char) -> bool, i: int, j: int)
    requires
        0 <= i <= j <= s.len(),
        forall|m: int| i <= m < j ==> p(#[trigger] s[m]),
        j == s.len() || !p(s[j]),
    ensures
        prefix_while(s.skip(i), p) == j - i,
    decreases j - i,
{
    let t = s.skip(i);
    if i < j {
        assert(t.drop_first() == s.skip(i + 1));
        lemma_prefix_while_at(s, p, i + 1, j);
    } else if j < s.len() {
        assert(t[0] == s[j]);
    }
}

pub open spec fn not_ws() -> spec_fn(char) -> bool {
    |c: char| !is_ws(c)
}

pub open spec fn not_newline() -> spec_fn(char) -> bool {
    |c: char| c != '\n'
}

/// The word at position `n`, counting from 0, of what
/// `str::split_whitespace` yields.
pub open spec fn nth_word(s: Seq<char>, n: nat) -> Option<Seq<char>>
    decreases s.len(),
{
    if s.len() == 0 {
        None
    } else if is_ws(s[0]) {
        nth_word(s.drop_first(), n)
    } else if n == 0 {
        Some(s.take(prefix_while(s, not_ws()) as int))
    } else {
        proof {
            lemma_prefix_while_bound(s, not_ws());
            assert(prefix_while(s, not_ws()) >= 1);
        }
        nth_word(s.skip(prefix_while(s, not_ws()) as int), (n - 1) as nat)
    }
}

/// The text before the first line feed. (`str::lines` also drops a
/// carriage return before it, which is whitespace to `split_whitespace`.)
pub open spec fn first_line(s: Seq<char>) -> Seq<char> {
    s.take(prefix_while(s, not_newline()) as int)
}

pub open spec fn chars_opt(o: Option<Vec<char>>) -> Option<Seq<char>> {
    match o {
        Some(v) => Some(v@),
        None => None,
    }
}

/// `s.split_whitespace().nth(n)`.
pub fn nth_word_of(s: &[char], n: usize) -> (r: Option<Vec<char>>)
    ensures
        chars_opt(r) == nth_word(s@, n as nat),
{
    let mut i: usize = 0;
    let mut k: usize = n;
    assert(s@.skip(0) == s@);
    while i < s.len()
        invariant
            i <= s@.len(),
            nth_word(s@, n as nat) == nth_word(s@.skip(i as int), k as nat),
        decreases s.len() - i,
    {
        let ghost t = s@.skip(i as int);
        if is_whitespace(s[i]) {
            assert(t.drop_first() == s@.skip(i + 1));
            i = i + 1;
        } else {
            let mut j: usize = i;
            while j < s.len() && !is_whitespace(s[j])
                invariant
                    i <= j <= s@.len(),
                    forall|m: int| i <= m < j ==> !is_ws(#[trigger] s@[m]),
                decreases s.len() - j,
            {
                j = j + 1;
            }
            proof {
                assert forall|m: int| i <= m < j implies (#[trigger] not_ws()(s@[m])) by {}
                lemma_prefix_while_at(s@, not_ws(), i as int, j as int);
                assert(t.take(j - i) == s@.subrange(i as int, j as int));
                assert(t.skip(j - i) == s@.skip(j as int));
            }
            if k == 0 {
                return Some(slice_chars(s, i, j));
            }
            k = k - 1;
            i = j;
        }
    }
    assert(s@.skip(i as int).len() == 0);
    None
}

/// The text before the first line feed.
pub fn first_line_of(s: &[char]) -> (r: Vec<char>)
    ensures
        r@ == first_line(s@),
{
    let mut j: usize = 0;
    while j < s.len() && s[j] != '\n'
        invariant
            j <= s@.len(),
            forall|m: int| 0 <= m < j ==> #[trigger] s@[m] != '\n',
        decreases s.len() - j,
    {
        j = j + 1;
    }
    proof {
        assert forall|m: int| 0 <= m < j implies (#[trigger] not_newline()(s@[m])) by {}
        lemma_prefix_while_at(s@, not_newline(), 0, j as int);
        assert(s@.skip(0) == s@);
    }
    slice_chars(s, 0, j)
}

// ---------------------------------------------------------------------
// Query parameters
// ---------------------------------------------------------------------

/// The value of a query parameter as a map built from the pairs in order
/// holds it: the last pair with the key wins.
pub open spec fn param(pairs: Seq<(Seq<char>, Seq<char>)>, key: Seq<char>) -> Option<Seq<char>>
    decreases pairs.len(),
{
    if pairs.len() == 0 {
        None
    } else if pairs.last().0 == key {
        Some(pairs.last().1)
    } else {
        param(pairs.drop_last(), key)
    }
}

pub open spec fn pairs_view(v: Seq<(String, String)>) -> Seq<(Seq<char>, Seq<char>)> {
    v.map_values(|p: (String, String)| (p.0@, p.1@))
}

/// The value that a map collected from the pairs holds under `key`.
pub fn param_value(pairs: &Vec<(String, String)>, key: &str) -> (r: Option<String>)
    ensures
        match r {
            Some(v) => param(pairs_view(pairs@), key@) == Some(v@),
            None => param(pairs_view(pairs@), key@) is None,
        },
{
    let ghost s = pairs_view(pairs@);
    let k = to_owned_string(key);
    let mut found: Option<String> = None;
    for i in 0..pairs.len()
        invariant
            s == pairs_view(pairs@),
            k@ == key@,
            match found {
                Some(v) => param(s.take(i as int), key@) == Some(v@),
                None => param(s.take(i as int), key@) is None,
            },
    {
        assert(s.take(i + 1).drop_last() == s.take(i as int));
        assert(s.take(i + 1).last() == s[i as int]);
        if pairs[i].0 == k {
            found = Some(pairs[i].1.clone());
        }
    }
    assert(s.take(pairs.len() as int) == s);
    found
}

/// What the browser's callback carries, from its request target.
pub open spec fn callback_params(origin: Seq<char>, target: Seq<char>) -> Result<Seq<(Seq<char>, Seq<char>)>, Seq<char>> {
    spec_query_pairs(origin + target)
}

/// Parses the request target against `origin` and lists its query pairs.
pub fn callback_pairs(origin: &str, target: &[char]) -> (r: Result<Vec<(String, String)>, String>)
    ensures
        match r {
            Ok(v) => callback_params(origin@, target@) == Ok::<Seq<(Seq<char>, Seq<char>)>, Seq<char>>(pairs_view(v@)),
            Err(e) => callback_params(origin@, target@) == Err::<Seq<(Seq<char>, Seq<char>)>, Seq<char>>(e@),
        },
{
    let mut url = to_owned_string(origin);
    push_chars(&mut url, target);
    query_pairs(url.as_str())
}

/// How the sign-in callback is answered: the page to send back, if any,
/// and the authorization code or the error.
#[derive(Debug)]
pub struct CallbackReply {
    pub response: Option<String>,
    pub result: Result<String, String>,
}

// ---------------------------------------------------------------------
// The page that answers the callback
// ---------------------------------------------------------------------

/// Length in bytes of the UTF-8 encoding, as `str::len` reports it.
pub open spec fn utf8_len(s: Seq<char>) -> usize {
    vstd::utf8::encode_utf8(s).len() as usize
}

/// An HTTP/1.1 `200 OK` response carrying an HTML body.
pub open spec fn html_response(body: Seq<char>) -> Seq<char> {
    "HTTP/1.1 200 OK\r\nContent-Type: text/html; charset=utf-8\r\nContent-Length: "@
        + decimal_seq(utf8_len(body) as nat) + "\r\nConnection: close\r\n\r\n"@ + body
}

/// Wraps an HTML body in an HTTP response that closes the connection.
pub fn html_response_of(body: String) -> (r: String)
    ensures
        r@ == html_response(body@),
{
    let n: usize = body.as_str().len();
    let digits = u64_to_decimal(n as u64);
    let mut out = to_owned_string("HTTP/1.1 200 OK\r\nContent-Type: text/html; charset=utf-8\r\nContent-Length: ");
    push_chars(&mut out, digits.as_slice());
    push_str(&mut out, "\r\nConnection: close\r\n\r\n");
    push_str(&mut out, body.as_str());
    out
}

} // verus!
