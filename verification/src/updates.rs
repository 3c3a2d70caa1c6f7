//! Checking GitHub for a newer release.

use vstd::prelude::*;
use crate::external::{semver_newer, semver_parse, spec_semver_newer, spec_semver_parse, spec_status_text, status_text};
use crate::text::{chars_of, decimal_seq, push_chars, push_str, slice_chars, string_from_chars, to_owned_string, trim_chars, trim_seq, u64_to_decimal};

verus! {

pub const LATEST_RELEASE_URL: &'static str = "https://api.github.com/repos/qiyang77/duckdisk/releases/latest";

/// The outcome of an update check.
#[derive(Debug)]
pub struct UpdateCheck {
    pub current_version: String,
    pub latest_version: String,
    pub update_available: bool,
    pub release_url: String,
}

/// Leading `v` and `V` characters removed.
pub open spec fn strip_vs(s: Seq<char>) -> Seq<char>
    decreases s.len(),
{
    if s.len() > 0 && (s[0] == 'v' || s[0] == 'V') {
        strip_vs(s.drop_first())
    } else {
        s
    }
}

/// A release tag or version as semver reads it: trimmed, without leading
/// `v`s, trimmed again.
pub open spec fn version_core(value: Seq<char>) -> Seq<char> {
    trim_seq(strip_vs(trim_seq(value)))
}

/// The version text of a tag.
pub fn normalize_version(value: &str) -> (r: String)
    ensures
        r@ == version_core(value@),
{
    let c = chars_of(value);
    let t = trim_chars(c.as_slice());
    let mut k: usize = 0;
    assert(t@.skip(0) == t@);
    while k < t.len() && (t[k] == 'v' || t[k] == 'V')
        invariant
            k <= t@.len(),
            strip_vs(t@) == strip_vs(t@.skip(k as int)),
        decreases t.len() - k,
    {
        assert(t@.skip(k as int).drop_first() == t@.skip(k + 1));
        k = k + 1;
    }
    let rest = slice_chars(t.as_slice(), k, t.len());
    assert(rest@ == t@.skip(k as int));
    let core = trim_chars(rest.as_slice());
    string_from_chars(core.as_slice())
}

/// A version as semver reads it: its major, minor and patch numbers and
/// its pre-release and build texts (empty where it has none).
#[derive(Debug, Clone, PartialEq, Eq)]
pub struct SemVersion {
    pub major: u64,
    pub minor: u64,
    pub patch: u64,
    pub pre: String,
    pub build: String,
}

/// The parts of a version, as plain values.
pub open spec fn version_parts(v: SemVersion) -> (u64, u64, u64, Seq<char>, Seq<char>) {
    (v.major, v.minor, v.patch, v.pre@, v.build@)
}

impl SemVersion {
    /// A version without pre-release or build texts.
    pub fn new(major: u64, minor: u64, patch: u64) -> (r: SemVersion)
        ensures
            version_parts(r) == (major, minor, patch, Seq::<char>::empty(), Seq::<char>::empty()),
    {
        SemVersion { major, minor, patch, pre: String::new(), build: String::new() }
    }
}

/// How semver displays a version: `major.minor.patch`, then `-` and the
/// pre-release text and `+` and the build text, each where it is not empty.
pub open spec fn version_display(p: (u64, u64, u64, Seq<char>, Seq<char>)) -> Seq<char> {
    decimal_seq(p.0 as nat) + "."@ + decimal_seq(p.1 as nat) + "."@ + decimal_seq(p.2 as nat) + (if p.3.len() > 0 {
        "-"@ + p.3
    } else {
        Seq::<char>::empty()
    }) + (if p.4.len() > 0 {
        "+"@ + p.4
    } else {
        Seq::<char>::empty()
    })
}

/// The text of a version, as semver displays it.
pub fn version_text(v: &SemVersion) -> (r: String)
    ensures
        r@ == version_display(version_parts(*v)),
{
    let mut s = String::new();
    push_chars(&mut s, u64_to_decimal(v.major).as_slice());
    push_str(&mut s, ".");
    push_chars(&mut s, u64_to_decimal(v.minor).as_slice());
    push_str(&mut s, ".");
    push_chars(&mut s, u64_to_decimal(v.patch).as_slice());
    let ghost numbers = s@;
    let pre = chars_of(v.pre.as_str());
    if pre.len() > 0 {
        push_str(&mut s, "-");
        push_chars(&mut s, pre.as_slice());
    }
    let ghost with_pre = s@;
    let build = chars_of(v.build.as_str());
    if build.len() > 0 {
        push_str(&mut s, "+");
        push_chars(&mut s, build.as_slice());
    }
    proof {
        let p = version_parts(*v);
        let pre_part = if p.3.len() > 0 { "-"@ + p.3 } else { Seq::<char>::empty() };
        let build_part = if p.4.len() > 0 { "+"@ + p.4 } else { Seq::<char>::empty() };
        assert(with_pre == numbers + pre_part);
        assert(s@ == with_pre + build_part);
    }
    s
}

/// Parses a release tag or a version: semver reads the normalized text,
/// and the version is what it reads, or the error quotes the value as
/// given.
pub fn parse_version(value: &str) -> (r: Result<SemVersion, String>)
    ensures
        match spec_semver_parse(version_core(value@)) {
            Ok(p) => r matches Ok(v) && version_parts(v) == p,
            Err(m) => r matches Err(e) && e@ == "Invalid version '"@ + value@ + "': "@ + m,
        },
{
    let core = normalize_version(value);
    match semver_parse(core.as_str()) {
        Ok(v) => Ok(v),
        Err(err) => {
            let mut m = to_owned_string("Invalid version '");
            push_str(&mut m, value);
            push_str(&mut m, "': ");
            push_str(&mut m, err.as_str());
            Err(m)
        },
    }
}

/// Whether the latest version is newer than the current one, by semver
/// precedence; both are read as `parse_version` reads them, the current one
/// first.
pub fn is_newer(latest: &str, current: &str) -> (r: Result<bool, String>)
    ensures
        match (spec_semver_parse(version_core(current@)), spec_semver_parse(version_core(latest@))) {
            (Err(m), _) => r matches Err(e) && e@ == "Invalid version '"@ + current@ + "': "@ + m,
            (Ok(_), Err(m)) => r matches Err(e) && e@ == "Invalid version '"@ + latest@ + "': "@ + m,
            (Ok(_), Ok(_)) => r == Ok::<bool, String>(spec_semver_newer(version_core(latest@), version_core(current@))),
        },
{
    match parse_version(current) {
        Err(e) => return Err(e),
        Ok(_) => {},
    }
    match parse_version(latest) {
        Err(e) => return Err(e),
        Ok(_) => {},
    }
    let l = normalize_version(latest);
    let c = normalize_version(current);
    Ok(semver_newer(l.as_str(), c.as_str()))
}

/// The `User-Agent` of the check.
pub fn user_agent(current_version: &str) -> (r: String)
    ensures
        r@ == "DuckDisk/"@ + current_version@,
{
    let mut s = to_owned_string("DuckDisk/");
    push_str(&mut s, current_version);
    s
}

/// The error for an answer that is not a success.
pub fn release_status_error(status: u16) -> (r: String)
    requires
        100 <= status <= 999,
    ensures
        r@ == "GitHub returned "@ + spec_status_text(status) + " while checking releases"@,
{
    let mut s = to_owned_string("GitHub returned ");
    push_str(&mut s, status_text(status).as_str());
    push_str(&mut s, " while checking releases");
    s
}

/// The outcome of a check, from the versions as displayed and whether the
/// latest is newer: the release page is given only when it is.
pub fn build_update_check(current_version: String, latest_version: String, update_available: bool, html_url: String) -> (r: UpdateCheck)
    ensures
        r.current_version@ == current_version@,
        r.latest_version@ == latest_version@,
        r.update_available == update_available,
        r.release_url@ == (if update_available { html_url@ } else { Seq::<char>::empty() }),
{
    UpdateCheck {
        current_version,
        latest_version,
        update_available,
        release_url: if update_available {
            html_url
        } else {
            String::new()
        },
    }
}

/// Reads a release tag and compares it with the running version: both
/// must be versions, the running one read first; the latest is newer by
/// semver precedence; both are reported as semver displays them.
pub fn check_release(current_version: &str, tag_name: &str, html_url: String) -> (r: Result<UpdateCheck, String>)
    ensures
        match (spec_semver_parse(version_core(current_version@)), spec_semver_parse(version_core(tag_name@))) {
            (Err(m), _) => r matches Err(e) && e@ == "Invalid version '"@ + current_version@ + "': "@ + m,
            (Ok(_), Err(m)) => r matches Err(e) && e@ == "Invalid version '"@ + tag_name@ + "': "@ + m,
            (Ok(cp), Ok(lp)) => r matches Ok(c) && {
                &&& c.current_version@ == version_display(cp)
                &&& c.latest_version@ == version_display(lp)
                &&& c.update_available == spec_semver_newer(version_core(tag_name@), version_core(current_version@))
                &&& c.release_url@ == (if c.update_available { html_url@ } else { Seq::<char>::empty() })
            },
        },
{
    let current = match parse_version(current_version) {
        Ok(v) => v,
        Err(e) => return Err(e),
    };
    let latest = match parse_version(tag_name) {
        Ok(v) => v,
        Err(e) => return Err(e),
    };
    let l = normalize_version(tag_name);
    let c = normalize_version(current_version);
    let update_available = semver_newer(l.as_str(), c.as_str());
    Ok(build_update_check(version_text(&current), version_text(&latest), update_available, html_url))
}

} // verus!
