//! Calls into outside crates, each behind a trusted item whose contract
//! states what the crate's source shows. Verus believes these contracts;
//! nothing here is proved.

use vstd::prelude::*;
use base64::Engine;
use crate::updates::{SemVersion, version_parts};

verus! {

// ---------------------------------------------------------------------
// reqwest (http): status codes
// ---------------------------------------------------------------------

/// What `StatusCode`'s `Display` prints for a code: the number and the
/// canonical reason phrase, e.g. `423 Locked`.
pub uninterp spec fn spec_status_text(code: u16) -> Seq<char>;

/// `reqwest::StatusCode::from_u16(code)` followed by its `Display`.
/// Claims only that the text is a function of the code. `from_u16` refuses
/// codes outside `100..=999`, which `requires` leaves out.
#[verifier::external_body]
pub fn status_text(code: u16) -> (r: String)
    requires
        100 <= code <= 999,
    ensures
        r@ == spec_status_text(code),
{
    reqwest::StatusCode::from_u16(code).unwrap().to_string()
}

// ---------------------------------------------------------------------
// serde_json: reading a JSON text
// ---------------------------------------------------------------------

/// What parsing a JSON text gives: `Err` with serde_json's error message
/// when the text is not JSON, otherwise the string at `error.message`, if
/// the document has one.
pub uninterp spec fn spec_json_inspect(text: Seq<char>) -> Result<Option<Seq<char>>, Seq<char>>;

/// `serde_json::from_str::<serde_json::Value>`, then the string at
/// `error.message`. Claims only that the outcome is a function of the text.
#[verifier::external_body]
pub fn json_inspect(text: &str) -> (r: Result<Option<String>, String>)
    ensures
        match r {
            Ok(m) => spec_json_inspect(text@) == Ok::<Option<Seq<char>>, Seq<char>>(
                match m {
                    Some(s) => Some(s@),
                    None => None,
                },
            ),
            Err(e) => spec_json_inspect(text@) == Err::<Option<Seq<char>>, Seq<char>>(e@),
        },
{
    match serde_json::from_str::<serde_json::Value>(text) {
        Ok(value) => Ok(value
            .get("error")
            .and_then(|error| error.get("message"))
            .and_then(serde_json::Value::as_str)
            .map(str::to_string)),
        Err(err) => Err(err.to_string()),
    }
}

/// What parsing a JSON text gives: `Err` with serde_json's error message
/// when the text is not JSON, otherwise the boolean at the top-level key,
/// if the document has one there.
pub uninterp spec fn spec_json_bool_at(text: Seq<char>, key: Seq<char>) -> Result<Option<bool>, Seq<char>>;

/// `serde_json::from_str::<serde_json::Value>`, then `get(key)` and
/// `as_bool`. Claims only that the outcome is a function of the text and
/// the key.
#[verifier::external_body]
pub fn json_bool_at(text: &str, key: &str) -> (r: Result<Option<bool>, String>)
    ensures
        match r {
            Ok(b) => spec_json_bool_at(text@, key@) == Ok::<Option<bool>, Seq<char>>(b),
            Err(e) => spec_json_bool_at(text@, key@) == Err::<Option<bool>, Seq<char>>(e@),
        },
{
    match serde_json::from_str::<serde_json::Value>(text) {
        Ok(value) => Ok(value.get(key).and_then(serde_json::Value::as_bool)),
        Err(err) => Err(err.to_string()),
    }
}

/// The JSON array of strings that `serde_json::to_string` writes.
pub uninterp spec fn spec_json_string_array(items: Seq<Seq<char>>) -> Seq<char>;

/// `serde_json::to_string` of a list of strings. Claims that the text is a
/// function of the strings, and that it is always written: serde_json
/// documents that serialising fails only when a `Serialize` impl decides to
/// fail or a map has keys that are not strings, and a list of strings has
/// neither.
#[verifier::external_body]
pub fn json_string_array(items: &Vec<String>) -> (r: Result<String, String>)
    ensures
        r is Ok,
        r matches Ok(t) ==> t@ == spec_json_string_array(items@.map_values(|s: String| s@)),
{
    serde_json::to_string(items).map_err(|err| err.to_string())
}

// ---------------------------------------------------------------------
// url
// ---------------------------------------------------------------------

/// The URL text that `Url::parse(base)` followed by
/// `path_segments_mut().extend(segments)` serializes to, or `None` when
/// the base does not parse or cannot take path segments.
pub uninterp spec fn spec_url_with_segments(base: Seq<char>, segments: Seq<Seq<char>>) -> Option<Seq<char>>;

/// `url::Url::parse` of `base`, `path_segments_mut().extend(segments)`,
/// then the URL text. Claims only that the outcome is a function of the
/// base and the segments.
#[verifier::external_body]
pub fn url_with_segments(base: &str, segments: &Vec<String>) -> (r: Option<String>)
    ensures
        match r {
            Some(u) => spec_url_with_segments(base@, segments@.map_values(|s: String| s@)) == Some(u@),
            None => spec_url_with_segments(base@, segments@.map_values(|s: String| s@)) is None,
        },
{
    let mut url = url::Url::parse(base).ok()?;
    url.path_segments_mut().ok()?.extend(segments.iter());
    Some(url.to_string())
}

/// The URL text that `Url::parse(base)`, then
/// `path_segments_mut().extend(segments)` and
/// `query_pairs_mut().extend_pairs(query)`, serializes to, or `None` when
/// the base does not parse or cannot take path segments.
pub uninterp spec fn spec_url_with_segments_query(base: Seq<char>, segments: Seq<Seq<char>>, query: Seq<(Seq<char>, Seq<char>)>) -> Option<Seq<char>>;

/// `url::Url::parse` of `base`, `path_segments_mut().extend(segments)`,
/// `query_pairs_mut().extend_pairs(query)`, then the URL text. Claims only
/// that the outcome is a function of the base, the segments and the pairs.
#[verifier::external_body]
pub fn url_with_segments_query(base: &str, segments: &Vec<String>, query: &Vec<(String, String)>) -> (r: Option<String>)
    ensures
        match r {
            Some(u) => spec_url_with_segments_query(
                base@,
                segments@.map_values(|s: String| s@),
                query@.map_values(|p: (String, String)| (p.0@, p.1@)),
            ) == Some(u@),
            None => spec_url_with_segments_query(
                base@,
                segments@.map_values(|s: String| s@),
                query@.map_values(|p: (String, String)| (p.0@, p.1@)),
            ) is None,
        },
{
    let mut url = url::Url::parse(base).ok()?;
    url.path_segments_mut().ok()?.extend(segments.iter());
    url.query_pairs_mut().extend_pairs(query.iter());
    Some(url.to_string())
}

/// The query pairs, percent-decoded and in order, of a URL text, or the
/// parser's error message.
pub uninterp spec fn spec_query_pairs(url: Seq<char>) -> Result<Seq<(Seq<char>, Seq<char>)>, Seq<char>>;

/// `url::Url::parse` of a URL text, then `query_pairs().into_owned()`.
/// Claims only that the outcome is a function of the text.
#[verifier::external_body]
pub fn query_pairs(url: &str) -> (r: Result<Vec<(String, String)>, String>)
    ensures
        match r {
            Ok(v) => spec_query_pairs(url@) == Ok::<Seq<(Seq<char>, Seq<char>)>, Seq<char>>(
                v@.map_values(|p: (String, String)| (p.0@, p.1@)),
            ),
            Err(e) => spec_query_pairs(url@) == Err::<Seq<(Seq<char>, Seq<char>)>, Seq<char>>(e@),
        },
{
    match url::Url::parse(url) {
        Ok(parsed) => Ok(parsed.query_pairs().into_owned().collect()),
        Err(err) => Err(err.to_string()),
    }
}

// ---------------------------------------------------------------------
// base64
// ---------------------------------------------------------------------

/// The character of a six-bit value in the standard base64 alphabet.
pub open spec fn base64_char(v: int) -> char {
    if v < 26 {
        ('A' as int + v) as char
    } else if v < 52 {
        ('a' as int + (v - 26)) as char
    } else if v < 62 {
        ('0' as int + (v - 52)) as char
    } else if v == 62 {
        '+'
    } else {
        '/'
    }
}

/// Standard base64 of a byte string, without padding: each group of three
/// bytes gives four characters, a last group of two bytes three, and a last
/// single byte two.
pub open spec fn spec_base64_no_pad(bytes: Seq<u8>) -> Seq<char>
    decreases bytes.len(),
{
    if bytes.len() == 0 {
        Seq::empty()
    } else if bytes.len() == 1 {
        let a = bytes[0] as int;
        seq![base64_char(a / 4), base64_char((a % 4) * 16)]
    } else if bytes.len() == 2 {
        let a = bytes[0] as int;
        let b = bytes[1] as int;
        seq![base64_char(a / 4), base64_char((a % 4) * 16 + b / 16), base64_char((b % 16) * 4)]
    } else {
        let a = bytes[0] as int;
        let b = bytes[1] as int;
        let c = bytes[2] as int;
        seq![
            base64_char(a / 4),
            base64_char((a % 4) * 16 + b / 16),
            base64_char((b % 16) * 4 + c / 64),
            base64_char(c % 64),
        ] + spec_base64_no_pad(bytes.subrange(3, bytes.len() as int))
    }
}

/// `base64::engine::general_purpose::STANDARD_NO_PAD.encode`. Claims that
/// the text is the standard base64 of the bytes (alphabet `A-Z a-z 0-9 + /`),
/// without padding.
#[verifier::external_body]
pub fn base64_no_pad(bytes: &[u8]) -> (r: String)
    ensures
        r@ == spec_base64_no_pad(bytes@),
{
    base64::engine::general_purpose::STANDARD_NO_PAD.encode(bytes)
}

// ---------------------------------------------------------------------
// semver
// ---------------------------------------------------------------------

/// What `semver::Version::parse` gives for a text: the version's major,
/// minor and patch numbers and its pre-release and build texts, or the
/// message of the error.
pub uninterp spec fn spec_semver_parse(text: Seq<char>) -> Result<(u64, u64, u64, Seq<char>, Seq<char>), Seq<char>>;

/// `semver::Version::parse`, with the version handed out as its public
/// fields (`pre` and `build` by `as_str`). Claims that the outcome, the
/// version's parts or the error's message, is a function of the text.
#[verifier::external_body]
pub fn semver_parse(text: &str) -> (r: Result<SemVersion, String>)
    ensures
        match r {
            Ok(v) => spec_semver_parse(text@) == Ok::<(u64, u64, u64, Seq<char>, Seq<char>), Seq<char>>(version_parts(v)),
            Err(e) => spec_semver_parse(text@) == Err::<(u64, u64, u64, Seq<char>, Seq<char>), Seq<char>>(e@),
        },
{
    match semver::Version::parse(text) {
        Ok(v) => Ok(SemVersion {
            major: v.major,
            minor: v.minor,
            patch: v.patch,
            pre: v.pre.as_str().to_string(),
            build: v.build.as_str().to_string(),
        }),
        Err(err) => Err(err.to_string()),
    }
}

/// Whether one version text is newer than another, by semver precedence.
pub uninterp spec fn spec_semver_newer(a: Seq<char>, b: Seq<char>) -> bool;

/// `>` on `semver::Version`, for two texts that `Version::parse` accepts.
/// Claims that the answer is a function of the two texts.
#[verifier::external_body]
pub fn semver_newer(a: &str, b: &str) -> (r: bool)
    requires
        spec_semver_parse(a@) is Ok,
        spec_semver_parse(b@) is Ok,
    ensures
        r == spec_semver_newer(a@, b@),
{
    match (semver::Version::parse(a), semver::Version::parse(b)) {
        (Ok(a), Ok(b)) => a > b,
        _ => false,
    }
}

// ---------------------------------------------------------------------
// std::path (Unix paths)
// ---------------------------------------------------------------------

/// What `Path::file_name` gives for a path: its last normal component.
pub uninterp spec fn spec_path_file_name(path: Seq<char>) -> Option<Seq<char>>;

/// `std::path::Path::file_name`, as text. Claims only that the outcome is
/// a function of the path.
#[verifier::external_body]
pub fn path_file_name(path: &str) -> (r: Option<String>)
    ensures
        match r {
            Some(n) => spec_path_file_name(path@) == Some(n@),
            None => spec_path_file_name(path@) is None,
        },
{
    std::path::Path::new(path).file_name().and_then(|name| name.to_str()).map(str::to_string)
}

/// What `Path::parent` gives for a path.
pub uninterp spec fn spec_path_parent(path: Seq<char>) -> Option<Seq<char>>;

/// `std::path::Path::parent`, as text. Claims only that the outcome is a
/// function of the path.
#[verifier::external_body]
pub fn path_parent(path: &str) -> (r: Option<String>)
    ensures
        match r {
            Some(n) => spec_path_parent(path@) == Some(n@),
            None => spec_path_parent(path@) is None,
        },
{
    std::path::Path::new(path).parent().and_then(|parent| parent.to_str()).map(str::to_string)
}

/// The text of `Path::join`: `name` pushed onto `base`.
pub uninterp spec fn spec_path_join(base: Seq<char>, name: Seq<char>) -> Seq<char>;

/// `std::path::Path::join`, displayed. Claims only that the text is a
/// function of the two paths.
#[verifier::external_body]
pub fn path_join(base: &str, name: &str) -> (r: String)
    ensures
        r@ == spec_path_join(base@, name@),
{
    std::path::Path::new(base).join(name).display().to_string()
}

/// Whether `Path::starts_with` holds: `base`'s components begin `path`'s.
pub uninterp spec fn spec_path_starts_with(path: Seq<char>, base: Seq<char>) -> bool;

/// `std::path::Path::starts_with`. Claims only that the answer is a
/// function of the two paths.
#[verifier::external_body]
pub fn path_starts_with(path: &str, base: &str) -> (r: bool)
    ensures
        r == spec_path_starts_with(path@, base@),
{
    std::path::Path::new(path).starts_with(base)
}

/// Whether two paths are equal as `Path`s, component by component.
pub uninterp spec fn spec_path_eq(a: Seq<char>, b: Seq<char>) -> bool;

/// `==` on `std::path::Path`. Claims only that the answer is a function of
/// the two paths.
#[verifier::external_body]
pub fn path_eq(a: &str, b: &str) -> (r: bool)
    ensures
        r == spec_path_eq(a@, b@),
{
    std::path::Path::new(a) == std::path::Path::new(b)
}

} // verus!
