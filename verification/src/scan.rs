//! Local scans run by the `pdu` sidecar: its arguments, what its error
//! output says, the error report, and the incremental rescan of a cached
//! result.

use vstd::prelude::*;
use crate::oauth::{not_ws, prefix_while, lemma_prefix_while_at, lemma_prefix_while_bound};
use crate::text::{chars_of, contains_str, is_digit, is_whitespace, occurs_at, occurs_at_exec, parse_u64, parse_u64_seq, push_str, seq_contains, slice_chars, starts_with_seq, string_from_chars, to_owned_string};

verus! {

// ---------------------------------------------------------------------
// Arguments
// ---------------------------------------------------------------------

/// The `--min-ratio=` argument for a ratio.
pub fn ratio_arg(ratio: &str) -> (r: String)
    ensures
        r@ == "--min-ratio="@ + ratio@,
{
    let mut a = to_owned_string("--min-ratio=");
    push_str(&mut a, ratio);
    a
}

pub open spec fn strings_view(v: Seq<String>) -> Seq<Seq<char>> {
    v.map_values(|s: String| s@)
}

/// The options of every `pdu` run, ending with the ratio argument.
pub fn scan_args(ratio: &str) -> (r: Vec<String>)
    ensures
        strings_view(r@) == seq![
            "--json-output"@,
            "--progress"@,
            "--deduplicate-hardlinks"@,
            "--omit-json-shared-details"@,
            "--omit-json-shared-summary"@,
            "--threads=max"@,
            ratio@,
        ],
{
    let mut v: Vec<String> = Vec::new();
    v.push(to_owned_string("--json-output"));
    v.push(to_owned_string("--progress"));
    v.push(to_owned_string("--deduplicate-hardlinks"));
    v.push(to_owned_string("--omit-json-shared-details"));
    v.push(to_owned_string("--omit-json-shared-summary"));
    v.push(to_owned_string("--threads=max"));
    v.push(to_owned_string(ratio));
    assert(strings_view(v@) == seq![
        "--json-output"@,
        "--progress"@,
        "--deduplicate-hardlinks"@,
        "--omit-json-shared-details"@,
        "--omit-json-shared-summary"@,
        "--threads=max"@,
        ratio@,
    ]);
    v
}

/// Top-level entries of `/` that a scan of the whole disk leaves out.
pub open spec fn skipped_root_entry(p: Seq<char>) -> bool {
    p == "/.fseventsd"@ || p == "/.Spotlight-V100"@ || p == "/.Trashes"@ || p == "/.vol"@
        || p == "/dev"@ || p == "/home"@ || p == "/net"@ || p == "/Network"@ || p == "/System"@
        || p == "/Volumes"@
}

fn is_skipped_root_entry(p: &String) -> (r: bool)
    ensures
        r == skipped_root_entry(p@),
{
    let names: [&str; 10] = [
        "/.fseventsd",
        "/.Spotlight-V100",
        "/.Trashes",
        "/.vol",
        "/dev",
        "/home",
        "/net",
        "/Network",
        "/System",
        "/Volumes",
    ];
    let mut k: usize = 0;
    while k < 10
        invariant
            k <= 10,
            names@ == seq!["/.fseventsd", "/.Spotlight-V100", "/.Trashes", "/.vol", "/dev", "/home", "/net", "/Network", "/System", "/Volumes"],
            forall|m: int| 0 <= m < k ==> p@ != (#[trigger] names@[m])@,
        decreases 10 - k,
    {
        let n = to_owned_string(names[k]);
        if *p == n {
            return true;
        }
        k = k + 1;
    }
    assert(p@ != names@[0]@ && p@ != names@[1]@ && p@ != names@[2]@ && p@ != names@[3]@
        && p@ != names@[4]@ && p@ != names@[5]@ && p@ != names@[6]@ && p@ != names@[7]@
        && p@ != names@[8]@ && p@ != names@[9]@);
    false
}

/// An entry of `/` other than `/.fseventsd`, `/.Spotlight-V100`,
/// `/.Trashes`, `/.vol`, `/dev`, `/home`, `/net`, `/Network`, `/System` and
/// `/Volumes` (where the other disks are mounted).
pub open spec fn not_a_system_entry(e: Seq<char>) -> bool {
    &&& e != "/.fseventsd"@
    &&& e != "/.Spotlight-V100"@
    &&& e != "/.Trashes"@
    &&& e != "/.vol"@
    &&& e != "/dev"@
    &&& e != "/home"@
    &&& e != "/net"@
    &&& e != "/Network"@
    &&& e != "/System"@
    &&& e != "/Volumes"@
}

/// The entries of `/` that a scan of the whole disk targets, in order.
pub open spec fn kept_root_entries(entries: Seq<Seq<char>>) -> Seq<Seq<char>> {
    entries.filter(|p: Seq<char>| !skipped_root_entry(p))
}

/// A scan of the whole disk never targets a system entry (`/Volumes`, where
/// the other disks are mounted, among them) and keeps every other entry of
/// `/`.
pub proof fn law_whole_disk_targets(entries: Seq<Seq<char>>)
    ensures
        forall|k: int| 0 <= k < kept_root_entries(entries).len()
            ==> not_a_system_entry(#[trigger] kept_root_entries(entries)[k]),
        forall|k: int| 0 <= k < entries.len() && not_a_system_entry(#[trigger] entries[k])
            ==> kept_root_entries(entries).contains(entries[k]),
{
    let pred = |p: Seq<char>| !skipped_root_entry(p);
    entries.filter_lemma(pred);
    assert forall|k: int| 0 <= k < entries.filter(pred).len() implies not_a_system_entry(#[trigger] entries.filter(pred)[k]) by {
        assert(pred(entries.filter(pred)[k]));
    }
    assert forall|k: int| 0 <= k < entries.len() && not_a_system_entry(#[trigger] entries[k]) implies entries.filter(pred).contains(entries[k]) by {
        assert(pred(entries[k]));
    }
}

/// What a scan of `path` covers: the path itself, except for `/`, whose
/// entries (when they can be listed) are scanned one by one, leaving out
/// the system entries.
pub fn scan_targets(path: &str, root_entries: Option<Vec<String>>) -> (r: Vec<String>)
    ensures
        path@ != "/"@ ==> strings_view(r@) == seq![path@],
        path@ == "/"@ ==> match root_entries {
            Some(es) => strings_view(r@) == strings_view(es@).filter(|p: Seq<char>| !skipped_root_entry(p)),
            None => strings_view(r@) == seq![path@],
        },
        path@ == "/"@ ==> forall|k: int| 0 <= k < r@.len() ==> not_a_system_entry((#[trigger] r@[k])@),
        path@ == "/"@ ==> (root_entries matches Some(es) ==> forall|k: int| 0 <= k < es@.len()
            && not_a_system_entry((#[trigger] es@[k])@) ==> strings_view(r@).contains(es@[k]@)),
{
    let p = to_owned_string(path);
    let slash = to_owned_string("/");
    if !(p == slash) {
        let mut v: Vec<String> = Vec::new();
        v.push(p);
        assert(strings_view(v@) == seq![path@]);
        return v;
    }
    match root_entries {
        None => {
            let mut v: Vec<String> = Vec::new();
            v.push(p);
            assert(strings_view(v@) == seq![path@]);
            proof {
                reveal_strlit("/");
                reveal_strlit("/.fseventsd");
                reveal_strlit("/.Spotlight-V100");
                reveal_strlit("/.Trashes");
                reveal_strlit("/.vol");
                reveal_strlit("/dev");
                reveal_strlit("/home");
                reveal_strlit("/net");
                reveal_strlit("/Network");
                reveal_strlit("/System");
                reveal_strlit("/Volumes");
                assert(v@[0]@ == "/"@);
            }
            v
        },
        Some(es) => {
            let ghost all = strings_view(es@);
            let mut out: Vec<String> = Vec::new();
            for k in 0..es.len()
                invariant
                    all == strings_view(es@),
                    strings_view(out@) == all.take(k as int).filter(|p: Seq<char>| !skipped_root_entry(p)),
            {
                proof {
                    reveal_with_fuel(Seq::<_>::filter, 1);
                    assert(all.take(k + 1).drop_last() == all.take(k as int));
                    assert(all.take(k + 1).last() == es@[k as int]@);
                }
                if !is_skipped_root_entry(&es[k]) {
                    let ghost before = strings_view(out@);
                    out.push(es[k].clone());
                    assert(strings_view(out@) == before.push(es@[k as int]@));
                }
            }
            assert(all.take(es.len() as int) == all);
            proof {
                let pred = |p: Seq<char>| !skipped_root_entry(p);
                all.filter_lemma(pred);
                assert forall|k: int| 0 <= k < out@.len() implies not_a_system_entry((#[trigger] out@[k])@) by {
                    assert(strings_view(out@)[k] == out@[k]@);
                    assert(pred(all.filter(pred)[k]));
                }
                assert forall|k: int| 0 <= k < es@.len() && not_a_system_entry((#[trigger] es@[k])@)
                    implies strings_view(out@).contains(es@[k]@) by {
                    assert(all[k] == es@[k]@);
                    assert(pred(all[k]));
                }
            }
            out
        },
    }
}

// ---------------------------------------------------------------------
// Progress lines
// ---------------------------------------------------------------------

pub open spec fn digits() -> spec_fn(char) -> bool {
    |c: char| is_digit(c)
}

/// Length of the run of decimal digits at position `i`.
pub open spec fn digit_run(s: Seq<char>, i: int) -> nat {
    prefix_while(s.skip(i), digits())
}

/// `", linked N, shared M"` at position `d`: where it ends.
pub open spec fn linked_at(s: Seq<char>, d: int) -> Option<int> {
    if occurs_at(s, ", linked "@, d) && digit_run(s, d + 9) > 0 {
        let e = d + 9 + digit_run(s, d + 9);
        if occurs_at(s, ", shared "@, e) && digit_run(s, e + 9) > 0 {
            Some(e + 9 + digit_run(s, e + 9))
        } else {
            None
        }
    } else {
        None
    }
}

/// `", erred N"` at position `d`: where it ends.
pub open spec fn erred_at(s: Seq<char>, d: int) -> Option<int> {
    if occurs_at(s, ", erred "@, d) && digit_run(s, d + 8) > 0 {
        Some(d + 8 + digit_run(s, d + 8))
    } else {
        None
    }
}

/// The progress report `(scanned N, total M[, linked L, shared S][, erred E])`
/// at position `i`: the texts of N and M.
pub open spec fn progress_at(s: Seq<char>, i: int) -> Option<(Seq<char>, Seq<char>)> {
    let a = i + 9;
    if occurs_at(s, "(scanned "@, i) && digit_run(s, a) > 0 {
        let b = a + digit_run(s, a);
        let c = b + 8;
        if occurs_at(s, ", total "@, b) && digit_run(s, c) > 0 {
            let d = c + digit_run(s, c);
            let d2 = match linked_at(s, d) {
                Some(e) => e,
                None => d,
            };
            let d3 = match erred_at(s, d2) {
                Some(e) => e,
                None => d2,
            };
            if 0 <= d3 < s.len() && s[d3] == ')' {
                Some((s.subrange(a, b), s.subrange(c, d)))
            } else {
                None
            }
        } else {
            None
        }
    } else {
        None
    }
}

/// The leftmost progress report at or after position `i`.
pub open spec fn progress_from(s: Seq<char>, i: int) -> Option<(Seq<char>, Seq<char>)>
    decreases s.len() - i,
{
    if i < 0 || i >= s.len() {
        None
    } else {
        match progress_at(s, i) {
            Some(p) => Some(p),
            None => progress_from(s, i + 1),
        }
    }
}

/// A number of a progress report, or 0 when it does not fit in 64 bits.
pub open spec fn count_value(t: Seq<char>) -> u64 {
    match parse_u64_seq(t) {
        Some(n) => n,
        None => 0,
    }
}

/// The items and bytes of the first progress report in a line of `pdu`'s
/// error output.
pub open spec fn progress_report(line: Seq<char>) -> Option<(u64, u64)> {
    match progress_from(line, 0) {
        Some((n, m)) => Some((count_value(n), count_value(m))),
        None => None,
    }
}

fn digit_run_exec(s: &[char], i: usize) -> (r: usize)
    requires
        i <= s@.len(),
    ensures
        r == digit_run(s@, i as int),
        i + r <= s@.len(),
        forall|m: int| i <= m < i + r ==> is_digit(#[trigger] s@[m]),
{
    let mut j: usize = i;
    while j < s.len() && '0' <= s[j] && s[j] <= '9'
        invariant
            i <= j <= s@.len(),
            forall|m: int| i <= m < j ==> is_digit(#[trigger] s@[m]),
        decreases s.len() - j,
    {
        j = j + 1;
    }
    proof {
        assert forall|m: int| i <= m < j implies (#[trigger] digits()(s@[m])) by {}
        lemma_prefix_while_at(s@, digits(), i as int, j as int);
    }
    j - i
}

fn occurs(s: &[char], lit: &str, i: usize) -> (r: bool)
    ensures
        r == occurs_at(s@, lit@, i as int),
{
    let l = chars_of(lit);
    occurs_at_exec(s, l.as_slice(), i)
}

fn linked_at_exec(s: &[char], d: usize) -> (r: Option<usize>)
    requires
        d <= s@.len(),
    ensures
        match r {
            Some(e) => linked_at(s@, d as int) == Some(e as int) && e <= s@.len(),
            None => linked_at(s@, d as int) is None,
        },
{
    let len = s.len();
    if !occurs(s, ", linked ", d) {
        return None;
    }
    proof { reveal_strlit(", linked "); }
    let k = digit_run_exec(s, d + 9);
    if k == 0 {
        return None;
    }
    let e = d + 9 + k;
    if !occurs(s, ", shared ", e) {
        return None;
    }
    proof { reveal_strlit(", shared "); }
    let m = digit_run_exec(s, e + 9);
    if m == 0 {
        return None;
    }
    Some(e + 9 + m)
}

fn erred_at_exec(s: &[char], d: usize) -> (r: Option<usize>)
    requires
        d <= s@.len(),
    ensures
        match r {
            Some(e) => erred_at(s@, d as int) == Some(e as int) && e <= s@.len(),
            None => erred_at(s@, d as int) is None,
        },
{
    let len = s.len();
    if !occurs(s, ", erred ", d) {
        return None;
    }
    proof { reveal_strlit(", erred "); }
    let k = digit_run_exec(s, d + 8);
    if k == 0 {
        return None;
    }
    Some(d + 8 + k)
}

fn progress_at_exec(s: &[char], i: usize) -> (r: Option<(usize, usize, usize, usize)>)
    requires
        i <= s@.len(),
    ensures
        match r {
            Some((a, b, c, d)) => a <= b <= c <= d <= s@.len()
                && progress_at(s@, i as int) == Some((s@.subrange(a as int, b as int), s@.subrange(c as int, d as int)))
                && forall|m: int| a <= m < b ==> is_digit(#[trigger] s@[m]),
            None => progress_at(s@, i as int) is None,
        },
{
    let len = s.len();
    if !occurs(s, "(scanned ", i) {
        return None;
    }
    proof { reveal_strlit("(scanned "); }
    let a = i + 9;
    let n1 = digit_run_exec(s, a);
    if n1 == 0 {
        return None;
    }
    let b = a + n1;
    if !occurs(s, ", total ", b) {
        return None;
    }
    proof { reveal_strlit(", total "); }
    let c = b + 8;
    let n2 = digit_run_exec(s, c);
    if n2 == 0 {
        return None;
    }
    let d = c + n2;
    let d2 = match linked_at_exec(s, d) {
        Some(e) => e,
        None => d,
    };
    let d3 = match erred_at_exec(s, d2) {
        Some(e) => e,
        None => d2,
    };
    if d3 < s.len() && s[d3] == ')' {
        Some((a, b, c, d))
    } else {
        None
    }
}

/// The items and bytes of the first progress report in a line of `pdu`'s
/// error output; a number too large for 64 bits reads as 0.
pub fn parse_progress_report(line: &str) -> (r: Option<(u64, u64)>)
    ensures
        r == progress_report(line@),
{
    let s = chars_of(line);
    let mut i: usize = 0;
    while i < s.len()
        invariant
            i <= s@.len(),
            s@ == line@,
            progress_from(s@, 0) == progress_from(s@, i as int),
        decreases s.len() - i,
    {
        match progress_at_exec(s.as_slice(), i) {
            Some((a, b, c, d)) => {
                let n = slice_chars(s.as_slice(), a, b);
                let m = slice_chars(s.as_slice(), c, d);
                let items: u64 = match parse_u64(n.as_slice()) {
                    Some(v) => v,
                    None => 0,
                };
                let total: u64 = match parse_u64(m.as_slice()) {
                    Some(v) => v,
                    None => 0,
                };
                return Some((items, total));
            },
            None => {},
        }
        i = i + 1;
    }
    None
}

// ---------------------------------------------------------------------
// Error lines
// ---------------------------------------------------------------------

/// The last position `p < k` with `": "` at `p`, at least one character
/// before it and one after it.
pub open spec fn last_separator(r: Seq<char>, k: int) -> Option<int>
    decreases k,
{
    if k <= 1 {
        None
    } else {
        let p = k - 1;
        if occurs_at(r, "\": "@, p) && p + 3 < r.len() {
            Some(p)
        } else {
            last_separator(r, k - 1)
        }
    }
}

/// The operation, path and reason of an error line
/// `[error] OPERATION "PATH": REASON`, read as the pattern
/// `^\[error\] (\S+) "(.+)": (.+)$` does: the operation is the run of
/// non-whitespace after the tag, the path runs to the last `": ` that
/// leaves a reason, and no line feed may occur in path or reason.
pub open spec fn error_fields(line: Seq<char>) -> Option<(Seq<char>, Seq<char>, Seq<char>)> {
    if !starts_with_seq(line, "[error] "@) {
        None
    } else {
        let rest = line.skip(8);
        let n = prefix_while(rest, not_ws());
        let after = rest.skip(n as int);
        if n == 0 || !starts_with_seq(after, " \""@) {
            None
        } else {
            let r = after.skip(2);
            if r.contains('\n') {
                None
            } else {
                match last_separator(r, r.len() as int) {
                    Some(p) => Some((rest.take(n as int), r.take(p), r.skip(p + 3))),
                    None => None,
                }
            }
        }
    }
}

/// The kind of a scan error, from the words of its reason.
pub open spec fn error_kind(reason: Seq<char>) -> Seq<char> {
    if seq_contains(reason, "Operation not permitted"@) {
        "operationNotPermitted"@
    } else if seq_contains(reason, "Permission denied"@) {
        "permissionDenied"@
    } else if seq_contains(reason, "Interrupted system call"@) {
        "interrupted"@
    } else {
        "other"@
    }
}

/// Classifies a scan error by its reason.
pub fn classify_scan_error(reason: &str) -> (r: &'static str)
    ensures
        r@ == error_kind(reason@),
{
    let c = chars_of(reason);
    if contains_str(c.as_slice(), "Operation not permitted") {
        "operationNotPermitted"
    } else if contains_str(c.as_slice(), "Permission denied") {
        "permissionDenied"
    } else if contains_str(c.as_slice(), "Interrupted system call") {
        "interrupted"
    } else {
        "other"
    }
}

/// An error that `pdu` reported.
#[derive(Debug)]
pub struct ScanErrorRecord {
    pub operation: String,
    pub path: String,
    pub reason: String,
    pub kind: String,
}

/// What an error line gives: the record of its fields, classified.
pub open spec fn error_record(line: Seq<char>) -> Option<(Seq<char>, Seq<char>, Seq<char>, Seq<char>)> {
    match error_fields(line) {
        Some((op, path, reason)) => Some((op, path, reason, error_kind(reason))),
        None => None,
    }
}

pub open spec fn record_view(r: ScanErrorRecord) -> (Seq<char>, Seq<char>, Seq<char>, Seq<char>) {
    (r.operation@, r.path@, r.reason@, r.kind@)
}

/// Reads an error line of `pdu`.
pub fn parse_scan_error(line: &str) -> (r: Option<ScanErrorRecord>)
    ensures
        match r {
            Some(rec) => error_record(line@) == Some(record_view(rec)),
            None => error_record(line@) is None,
        },
{
    let s = chars_of(line);
    let tag = chars_of("[error] ");
    proof { reveal_strlit("[error] "); }
    if !crate::text::starts_with(s.as_slice(), tag.as_slice()) {
        return None;
    }
    let rest = slice_chars(s.as_slice(), 8, s.len());
    assert(rest@ == line@.skip(8));
    let mut n: usize = 0;
    while n < rest.len() && !is_whitespace(rest[n])
        invariant
            n <= rest@.len(),
            forall|m: int| 0 <= m < n ==> !crate::text::is_ws(#[trigger] rest@[m]),
        decreases rest.len() - n,
    {
        n = n + 1;
    }
    proof {
        assert forall|m: int| 0 <= m < n implies (#[trigger] not_ws()(rest@[m])) by {}
        lemma_prefix_while_at(rest@, not_ws(), 0, n as int);
        assert(rest@.skip(0) == rest@);
    }
    if n == 0 {
        return None;
    }
    let after = slice_chars(rest.as_slice(), n, rest.len());
    assert(after@ == rest@.skip(n as int));
    let quote = chars_of(" \"");
    proof { reveal_strlit(" \""); }
    if !crate::text::starts_with(after.as_slice(), quote.as_slice()) {
        return None;
    }
    let r = slice_chars(after.as_slice(), 2, after.len());
    assert(r@ == after@.skip(2));
    if crate::text::contains_char(r.as_slice(), '\n') {
        return None;
    }
    let sep = chars_of("\": ");
    proof { reveal_strlit("\": "); }
    let mut k: usize = r.len();
    while k > 1
        invariant
            k <= r@.len(),
            sep@ == "\": "@,
            last_separator(r@, r@.len() as int) == last_separator(r@, k as int),
            n <= rest@.len(),
            n > 0,
            rest@ == line@.skip(8),
            starts_with_seq(line@, "[error] "@),
            n == prefix_while(rest@, not_ws()),
            after@ == rest@.skip(n as int),
            starts_with_seq(after@, " \""@),
            r@ == after@.skip(2),
            !r@.contains('\n'),
        decreases k,
    {
        let p = k - 1;
        if occurs_at_exec(r.as_slice(), sep.as_slice(), p) && r.len() - p > 3 {
            let op = slice_chars(rest.as_slice(), 0, n);
            let path = slice_chars(r.as_slice(), 0, p);
            let reason = slice_chars(r.as_slice(), p + 3, r.len());
            assert(op@ == rest@.take(n as int));
            assert(path@ == r@.take(p as int));
            assert(reason@ == r@.skip(p + 3));
            let reason_s = string_from_chars(reason.as_slice());
            let kind = classify_scan_error(reason_s.as_str());
            return Some(ScanErrorRecord {
                operation: string_from_chars(op.as_slice()),
                path: string_from_chars(path.as_slice()),
                kind: to_owned_string(kind),
                reason: reason_s,
            });
        }
        k = k - 1;
    }
    None
}

// ---------------------------------------------------------------------
// The error report
// ---------------------------------------------------------------------

/// How many errors of each kind a scan met.
#[derive(Debug)]
pub struct ScanErrorCounts {
    pub operation_not_permitted: u64,
    pub permission_denied: u64,
    pub interrupted: u64,
    pub other: u64,
}

/// The counts and the records of a scan's errors.
#[derive(Debug)]
pub struct ScanErrorReport {
    pub counts: ScanErrorCounts,
    pub records: Vec<ScanErrorRecord>,
}

/// How many records have this kind.
pub open spec fn count_kind(rs: Seq<ScanErrorRecord>, kind: Seq<char>) -> nat
    decreases rs.len(),
{
    if rs.len() == 0 {
        0
    } else {
        count_kind(rs.drop_last(), kind) + if rs.last().kind@ == kind {
            1nat
        } else {
            0nat
        }
    }
}

/// How many records have none of the three known kinds.
pub open spec fn count_other(rs: Seq<ScanErrorRecord>) -> nat
    decreases rs.len(),
{
    if rs.len() == 0 {
        0
    } else {
        let k = rs.last().kind@;
        count_other(rs.drop_last()) + if k == "operationNotPermitted"@ || k == "permissionDenied"@
            || k == "interrupted"@ {
            0nat
        } else {
            1nat
        }
    }
}

pub open spec fn counts_match(c: ScanErrorCounts, rs: Seq<ScanErrorRecord>) -> bool {
    &&& c.operation_not_permitted == count_kind(rs, "operationNotPermitted"@)
    &&& c.permission_denied == count_kind(rs, "permissionDenied"@)
    &&& c.interrupted == count_kind(rs, "interrupted"@)
    &&& c.other == count_other(rs)
}

proof fn lemma_count_step(rs: Seq<ScanErrorRecord>)
    requires
        rs.len() > 0,
    ensures
        ({
            let k = rs.last().kind@;
            let p = rs.drop_last();
            &&& count_kind(rs, "operationNotPermitted"@) == count_kind(p, "operationNotPermitted"@)
                + if k == "operationNotPermitted"@ { 1nat } else { 0nat }
            &&& count_kind(rs, "permissionDenied"@) == count_kind(p, "permissionDenied"@)
                + if k == "permissionDenied"@ { 1nat } else { 0nat }
            &&& count_kind(rs, "interrupted"@) == count_kind(p, "interrupted"@)
                + if k == "interrupted"@ { 1nat } else { 0nat }
            &&& count_other(rs) == count_other(p) + if k == "operationNotPermitted"@ || k
                == "permissionDenied"@ || k == "interrupted"@ { 0nat } else { 1nat }
        }),
{
}

/// Counts the records by kind.
pub fn count_scan_errors(records: &Vec<ScanErrorRecord>) -> (r: ScanErrorCounts)
    ensures
        counts_match(r, records@),
{
    let mut c = ScanErrorCounts { operation_not_permitted: 0, permission_denied: 0, interrupted: 0, other: 0 };
    let onp = to_owned_string("operationNotPermitted");
    let pd = to_owned_string("permissionDenied");
    let intr = to_owned_string("interrupted");
    for k in 0..records.len()
        invariant
            onp@ == "operationNotPermitted"@,
            pd@ == "permissionDenied"@,
            intr@ == "interrupted"@,
            counts_match(c, records@.take(k as int)),
            c.operation_not_permitted + c.permission_denied + c.interrupted + c.other == k,
    {
        let ghost rs = records@.take(k + 1);
        assert(rs.drop_last() == records@.take(k as int));
        assert(rs.last() == records@[k as int]);
        proof {
            reveal_strlit("operationNotPermitted");
            reveal_strlit("permissionDenied");
            reveal_strlit("interrupted");
            lemma_count_step(rs);
        }
        let kind = &records[k].kind;
        assert(kind@ == rs.last().kind@);
        if *kind == onp {
            c.operation_not_permitted = c.operation_not_permitted + 1;
            assert(c.operation_not_permitted == count_kind(rs, "operationNotPermitted"@));
            assert(c.permission_denied == count_kind(rs, "permissionDenied"@));
            assert(c.interrupted == count_kind(rs, "interrupted"@));
            assert(c.other == count_other(rs));
        } else if *kind == pd {
            c.permission_denied = c.permission_denied + 1;
        } else if *kind == intr {
            c.interrupted = c.interrupted + 1;
        } else {
            c.other = c.other + 1;
        }
    }
    assert(records@.take(records@.len() as int) == records@);
    c
}

/// The report of a scan's errors.
pub fn build_error_report(records: Vec<ScanErrorRecord>) -> (r: ScanErrorReport)
    ensures
        r.records@ == records@,
        counts_match(r.counts, records@),
{
    let counts = count_scan_errors(&records);
    ScanErrorReport { counts, records }
}

/// What the scan has reported so far on its error output.
#[derive(Debug)]
pub struct ScanMonitor {
    pub items: u64,
    pub total: u64,
    pub records: Vec<ScanErrorRecord>,
}

impl ScanMonitor {
    /// No progress, no errors.
    pub fn new() -> (r: ScanMonitor)
        ensures
            r.items == 0,
            r.total == 0,
            r.records@.len() == 0,
    {
        ScanMonitor { items: 0, total: 0, records: Vec::new() }
    }

    /// Takes a line of `pdu`'s error output: a progress report updates the
    /// counts, an error line adds a record; either way the status is to be
    /// reported (`true`). Other lines change nothing.
    pub fn on_stderr_line(&mut self, line: &str) -> (r: bool)
        ensures
            match progress_report(line@) {
                Some((n, m)) => r && final(self).items == n && final(self).total == m
                    && final(self).records@ == old(self).records@,
                None => match error_record(line@) {
                    Some(rec) => r && final(self).items == old(self).items && final(self).total == old(self).total
                        && final(self).records@.len() == old(self).records@.len() + 1
                        && final(self).records@.take(old(self).records@.len() as int) == old(self).records@
                        && record_view(final(self).records@.last()) == rec,
                    None => !r && final(self).items == old(self).items && final(self).total == old(self).total
                        && final(self).records@ == old(self).records@,
                },
            },
    {
        match parse_progress_report(line) {
            Some((n, m)) => {
                self.items = n;
                self.total = m;
                true
            },
            None => match parse_scan_error(line) {
                Some(rec) => {
                    let ghost before = self.records@;
                    self.records.push(rec);
                    assert(self.records@.take(before.len() as int) == before);
                    true
                },
                None => false,
            },
        }
    }
}


// ---------------------------------------------------------------------
// Incremental rescans
// ---------------------------------------------------------------------

/// An entry of the index of a cached scan: a top-level path and what its
/// metadata said when the scan was cached.
#[derive(Debug)]
pub struct CacheIndexEntry {
    pub path: String,
    pub is_dir: bool,
    pub modified_ms: u128,
    pub len: u64,
}

pub ghost struct IndexView {
    pub path: Seq<char>,
    pub is_dir: bool,
    pub modified_ms: u128,
    pub len: u64,
}

impl View for CacheIndexEntry {
    type V = IndexView;

    open spec fn view(&self) -> IndexView {
        IndexView { path: self.path@, is_dir: self.is_dir, modified_ms: self.modified_ms, len: self.len }
    }
}

pub open spec fn index_view(v: Seq<CacheIndexEntry>) -> Seq<IndexView> {
    v.map_values(|e: CacheIndexEntry| e@)
}

/// The first indexed entry with this path.
pub open spec fn indexed(idx: Seq<IndexView>, p: Seq<char>) -> Option<IndexView>
    decreases idx.len(),
{
    if idx.len() == 0 {
        None
    } else if idx[0].path == p {
        Some(idx[0])
    } else {
        indexed(idx.drop_first(), p)
    }
}

/// An entry needs rescanning when the index does not know its path, or
/// its modification time, length or kind changed.
pub open spec fn entry_changed(idx: Seq<IndexView>, e: IndexView) -> bool {
    match indexed(idx, e.path) {
        None => true,
        Some(c) => c.modified_ms != e.modified_ms || c.len != e.len || c.is_dir != e.is_dir,
    }
}

fn indexed_exec(index: &Vec<CacheIndexEntry>, p: &String) -> (r: Option<usize>)
    ensures
        match r {
            Some(k) => k < index@.len() && indexed(index_view(index@), p@) == Some(index@[k as int]@),
            None => indexed(index_view(index@), p@) is None,
        },
{
    let ghost idx = index_view(index@);
    assert(idx.skip(0) == idx);
    for k in 0..index.len()
        invariant
            idx == index_view(index@),
            indexed(idx, p@) == indexed(idx.skip(k as int), p@),
    {
        assert(idx.skip(k as int).drop_first() == idx.skip(k + 1));
        assert(idx.skip(k as int)[0] == index@[k as int]@);
        if index[k].path == *p {
            return Some(k);
        }
    }
    assert(idx.skip(index.len() as int).len() == 0);
    None
}

/// The current top-level paths that need rescanning, in order.
pub fn changed_paths(index: &Vec<CacheIndexEntry>, current: &Vec<CacheIndexEntry>) -> (r: Vec<String>)
    ensures
        strings_view(r@) == index_view(current@).filter(|e: IndexView| entry_changed(index_view(index@), e)).map_values(
            |e: IndexView| e.path,
        ),
{
    let ghost idx = index_view(index@);
    let ghost cur = index_view(current@);
    let mut out: Vec<String> = Vec::new();
    for k in 0..current.len()
        invariant
            idx == index_view(index@),
            cur == index_view(current@),
            strings_view(out@) == cur.take(k as int).filter(|e: IndexView| entry_changed(idx, e)).map_values(
                |e: IndexView| e.path,
            ),
    {
        proof {
            reveal_with_fuel(Seq::<_>::filter, 1);
            assert(cur.take(k + 1).drop_last() == cur.take(k as int));
            assert(cur.take(k + 1).last() == current@[k as int]@);
        }
        let e = &current[k];
        let changed = match indexed_exec(index, &e.path) {
            None => true,
            Some(j) => index[j].modified_ms != e.modified_ms || index[j].len != e.len || index[j].is_dir != e.is_dir,
        };
        let ghost before = cur.take(k as int).filter(|e: IndexView| entry_changed(idx, e));
        assert(changed == entry_changed(idx, current@[k as int]@));
        if changed {
            let ghost out0 = strings_view(out@);
            out.push(e.path.clone());
            assert(strings_view(out@) == out0.push(current@[k as int]@.path));
            assert(cur.take(k + 1).filter(|e: IndexView| entry_changed(idx, e)) == before.push(current@[k as int]@));
            assert(before.push(current@[k as int]@).map_values(|e: IndexView| e.path) == before.map_values(|e: IndexView| e.path).push(current@[k as int]@.path));
        } else {
            assert(cur.take(k + 1).filter(|e: IndexView| entry_changed(idx, e)) == before);
        }
    }
    assert(cur.take(current.len() as int) == cur);
    out
}

pub open spec fn has_path(v: Seq<IndexView>, p: Seq<char>) -> bool {
    exists|k: int| 0 <= k < v.len() && v[k].path == p
}

fn has_path_exec(v: &Vec<CacheIndexEntry>, p: &String) -> (r: bool)
    ensures
        r == has_path(index_view(v@), p@),
{
    for k in 0..v.len()
        invariant
            forall|m: int| 0 <= m < k ==> v@[m].path@ != p@,
    {
        if v[k].path == *p {
            assert(index_view(v@)[k as int].path == p@);
            return true;
        }
    }
    false
}

fn contains_string(v: &Vec<String>, p: &String) -> (r: bool)
    ensures
        r == strings_view(v@).contains(p@),
{
    for k in 0..v.len()
        invariant
            forall|m: int| 0 <= m < k ==> v@[m]@ != p@,
    {
        if v[k] == *p {
            assert(strings_view(v@)[k as int] == p@);
            return true;
        }
    }
    false
}

/// The indexed paths that are gone, each once.
pub fn removed_paths(index: &Vec<CacheIndexEntry>, current: &Vec<CacheIndexEntry>) -> (r: Vec<String>)
    ensures
        strings_view(r@).no_duplicates(),
        forall|p: Seq<char>| #[trigger] strings_view(r@).contains(p) <==> (has_path(index_view(index@), p)
            && !has_path(index_view(current@), p)),
{
    let mut out: Vec<String> = Vec::new();
    for k in 0..index.len()
        invariant
            strings_view(out@).no_duplicates(),
            forall|p: Seq<char>| #[trigger] strings_view(out@).contains(p) <==> (has_path(index_view(index@).take(k as int), p)
                && !has_path(index_view(current@), p)),
    {
        let p = &index[k].path;
        let ghost idx = index_view(index@);
        proof {
            let t1 = idx.take(k + 1);
            let t0 = idx.take(k as int);
            assert forall|q: Seq<char>| has_path(t1, q) <==> (has_path(t0, q) || q == p@) by {
                if has_path(t1, q) {
                    let m = choose|m: int| 0 <= m < t1.len() && #[trigger] t1[m].path == q;
                    if m < k {
                        assert(t0[m].path == q);
                    }
                }
                if q == p@ {
                    assert(t1[k as int].path == q);
                }
                if has_path(t0, q) {
                    let m = choose|m: int| 0 <= m < t0.len() && #[trigger] t0[m].path == q;
                    assert(t1[m].path == q);
                }
            }
        }
        if !has_path_exec(current, p) && !contains_string(&out, p) {
            let ghost before = strings_view(out@);
            out.push(p.clone());
            assert(strings_view(out@) == before.push(p@));
            assert forall|q: Seq<char>| #[trigger] strings_view(out@).contains(q) <==> (before.contains(q) || q == p@) by {
                if strings_view(out@).contains(q) {
                    let sv = strings_view(out@);
                    let m = choose|m: int| 0 <= m < sv.len() && #[trigger] sv[m] == q;
                    if m < before.len() {
                        assert(before[m] == q);
                    }
                }
                if before.contains(q) {
                    let m = choose|m: int| 0 <= m < before.len() && #[trigger] before[m] == q;
                    assert(strings_view(out@)[m] == q);
                }
                if q == p@ {
                    assert(strings_view(out@)[before.len() as int] == q);
                }
            }
        }
    }
    assert(index_view(index@).take(index.len() as int) == index_view(index@));
    out
}

/// The path of a child of a cached tree: its name as is when the tree is
/// a list of scanned paths (`(total)`) or the name is absolute, otherwise
/// the name below the scanned path. A child without a name has none.
pub open spec fn child_path_spec(scan_path: Seq<char>, total_root: bool, name: Option<Seq<char>>) -> Option<Seq<char>> {
    match name {
        None => None,
        Some(n) => Some(
            if total_root || (n.len() > 0 && n[0] == '/') {
                n
            } else if scan_path == "/"@ {
                "/"@ + n
            } else {
                crate::external::spec_path_join(scan_path, n)
            },
        ),
    }
}

pub open spec fn opt_str_view(o: Option<&str>) -> Option<Seq<char>> {
    match o {
        Some(s) => Some(s@),
        None => None,
    }
}

/// The path of a child of a cached tree.
pub fn child_path(scan_path: &str, total_root: bool, name: Option<&str>) -> (r: Option<String>)
    ensures
        match r {
            Some(p) => child_path_spec(scan_path@, total_root, opt_str_view(name)) == Some(p@),
            None => child_path_spec(scan_path@, total_root, opt_str_view(name)) is None,
        },
{
    match name {
        None => None,
        Some(n) => {
            let c = chars_of(n);
            if total_root || (c.len() > 0 && c[0] == '/') {
                Some(to_owned_string(n))
            } else {
                let sp = to_owned_string(scan_path);
                let slash = to_owned_string("/");
                if sp == slash {
                    let mut p = to_owned_string("/");
                    push_str(&mut p, n);
                    Some(p)
                } else {
                    Some(crate::external::path_join(scan_path, n))
                }
            }
        },
    }
}

/// Whether a scan result's tree lists scanned paths under `(total)`.
pub fn is_total_root(name: Option<&str>) -> (r: bool)
    ensures
        r == (opt_str_view(name) == Some("(total)"@)),
{
    match name {
        Some(n) => {
            let a = to_owned_string(n);
            let b = to_owned_string("(total)");
            a == b
        },
        None => false,
    }
}

/// What the merge reads of a tree node: its name, when it is a string, and
/// its size, 0 when it is not a number.
#[derive(Debug)]
pub struct ChildInfo {
    pub name: Option<String>,
    pub size: u64,
}

/// A child of the merged tree: a child of the cached tree, or a top-level
/// node of the new scan, renamed to its file name when given one.
#[derive(Debug)]
pub enum MergedChild {
    Cached(usize),
    Scanned(usize, Option<String>),
}

/// A child of the merged tree in the model: where it comes from, the name
/// its path is read from, and its size.
pub ghost struct MergeEntry {
    pub cached: bool,
    pub index: int,
    pub rename: Option<Seq<char>>,
    pub name: Option<Seq<char>>,
    pub size: u64,
}

pub open spec fn info_name(c: ChildInfo) -> Option<Seq<char>> {
    match c.name {
        Some(n) => Some(n@),
        None => None,
    }
}

/// The cached children whose path is not among the removed ones, in order.
pub open spec fn kept_children(ex: Seq<ChildInfo>, scan_path: Seq<char>, total_root: bool, removed: Seq<Seq<char>>, n: int) -> Seq<MergeEntry>
    decreases n,
{
    if n <= 0 {
        Seq::empty()
    } else {
        let rest = kept_children(ex, scan_path, total_root, removed, n - 1);
        let i = n - 1;
        let keep = match child_path_spec(scan_path, total_root, info_name(ex[i])) {
            Some(p) => !removed.contains(p),
            None => true,
        };
        if keep {
            rest.push(MergeEntry { cached: true, index: i, rename: None, name: info_name(ex[i]), size: ex[i].size })
        } else {
            rest
        }
    }
}

/// The first child of the list whose path is `path`.
pub open spec fn first_at_path(list: Seq<MergeEntry>, scan_path: Seq<char>, total_root: bool, path: Seq<char>, k: int) -> Option<int>
    decreases list.len() - k,
{
    if k < 0 || k >= list.len() {
        None
    } else if child_path_spec(scan_path, total_root, list[k].name) == Some(path) {
        Some(k)
    } else {
        first_at_path(list, scan_path, total_root, path, k + 1)
    }
}

/// A node of the new scan placed in the list: its name is its path (a node
/// without one is left out); below a scanned folder it is renamed to its
/// file name; it replaces the first child with the same path, or joins at
/// the end.
pub open spec fn place(list: Seq<MergeEntry>, scan_path: Seq<char>, total_root: bool, changed: Seq<ChildInfo>, j: int) -> Seq<MergeEntry> {
    let path = match info_name(changed[j]) {
        Some(n) => n,
        None => Seq::empty(),
    };
    if path.len() == 0 {
        list
    } else {
        let rename = if !total_root {
            crate::external::spec_path_file_name(path)
        } else {
            None
        };
        let name = match rename {
            Some(r) => r,
            None => path,
        };
        let e = MergeEntry { cached: false, index: j, rename, name: Some(name), size: changed[j].size };
        match first_at_path(list, scan_path, total_root, path, 0) {
            Some(k) => list.update(k, e),
            None => list.push(e),
        }
    }
}

pub open spec fn place_all(list: Seq<MergeEntry>, scan_path: Seq<char>, total_root: bool, changed: Seq<ChildInfo>, n: int) -> Seq<MergeEntry>
    decreases n,
{
    if n <= 0 {
        list
    } else {
        place(place_all(list, scan_path, total_root, changed, n - 1), scan_path, total_root, changed, n - 1)
    }
}

/// The children of the merged tree.
pub open spec fn merged_children(ex: Seq<ChildInfo>, scan_path: Seq<char>, total_root: bool, removed: Seq<Seq<char>>, changed: Seq<ChildInfo>) -> Seq<MergeEntry> {
    place_all(kept_children(ex, scan_path, total_root, removed, ex.len() as int), scan_path, total_root, changed, changed.len() as int)
}

pub open spec fn entries_size(v: Seq<MergeEntry>) -> nat
    decreases v.len(),
{
    if v.len() == 0 {
        0
    } else {
        entries_size(v.drop_last()) + v.last().size as nat
    }
}

/// How the merged tree is made, and its size: `None` when the sizes add up
/// beyond 64 bits.
#[derive(Debug)]
pub struct MergePlan {
    pub children: Vec<MergedChild>,
    pub size: Option<u64>,
}

pub open spec fn merged_view(c: MergedChild) -> (bool, int, Option<Seq<char>>) {
    match c {
        MergedChild::Cached(i) => (true, i as int, None),
        MergedChild::Scanned(j, r) => (false, j as int, match r {
            Some(n) => Some(n@),
            None => None,
        }),
    }
}

pub open spec fn entry_source(e: MergeEntry) -> (bool, int, Option<Seq<char>>) {
    (e.cached, e.index, e.rename)
}

struct Slot {
    child: MergedChild,
    name: Option<String>,
    size: u64,
}

spec fn slot_view(s: Slot) -> MergeEntry {
    let (cached, index, rename) = merged_view(s.child);
    MergeEntry {
        cached,
        index,
        rename,
        name: match s.name {
            Some(n) => Some(n@),
            None => None,
        },
        size: s.size,
    }
}

spec fn slots_view(v: Seq<Slot>) -> Seq<MergeEntry> {
    v.map_values(|s: Slot| slot_view(s))
}

fn first_at_path_exec(list: &Vec<Slot>, scan_path: &str, total_root: bool, path: &String) -> (r: Option<usize>)
    ensures
        match r {
            Some(k) => k < list@.len() && first_at_path(slots_view(list@), scan_path@, total_root, path@, 0) == Some(k as int),
            None => first_at_path(slots_view(list@), scan_path@, total_root, path@, 0) is None,
        },
{
    let ghost sv = slots_view(list@);
    let mut k: usize = 0;
    while k < list.len()
        invariant
            k <= list@.len(),
            sv == slots_view(list@),
            first_at_path(sv, scan_path@, total_root, path@, 0) == first_at_path(sv, scan_path@, total_root, path@, k as int),
        decreases list.len() - k,
    {
        let cp = match &list[k].name {
            Some(n) => child_path(scan_path, total_root, Some(n.as_str())),
            None => child_path(scan_path, total_root, None),
        };
        let hit = match &cp {
            Some(p) => *p == *path,
            None => false,
        };
        if hit {
            return Some(k);
        }
        k = k + 1;
    }
    None
}

fn slot_copy(s: &Slot) -> (r: Slot)
    ensures
        slot_view(r) == slot_view(*s),
{
    Slot {
        child: match &s.child {
            MergedChild::Cached(i) => MergedChild::Cached(*i),
            MergedChild::Scanned(j, r) => MergedChild::Scanned(*j, crate::cloud_items::copy_opt_string(r)),
        },
        name: crate::cloud_items::copy_opt_string(&s.name),
        size: s.size,
    }
}

/// Plans the merge of a rescan into a cached tree: the cached children
/// whose path was removed leave, and each top-level node of the rescan
/// replaces the child at its path or joins the end; the tree's size is the
/// sum of its children's sizes.
pub fn plan_merge(
    scan_path: &str,
    total_root: bool,
    existing: &Vec<ChildInfo>,
    removed: &Vec<String>,
    changed: &Vec<ChildInfo>,
) -> (r: MergePlan)
    ensures
        r.children@.map_values(|c: MergedChild| merged_view(c)) == merged_children(
            existing@,
            scan_path@,
            total_root,
            strings_view(removed@),
            changed@,
        ).map_values(|e: MergeEntry| entry_source(e)),
        match r.size {
            Some(n) => n == entries_size(merged_children(existing@, scan_path@, total_root, strings_view(removed@), changed@)),
            None => entries_size(merged_children(existing@, scan_path@, total_root, strings_view(removed@), changed@)) > u64::MAX,
        },
{
    let ghost rm = strings_view(removed@);
    let mut list: Vec<Slot> = Vec::new();
    for i in 0..existing.len()
        invariant
            rm == strings_view(removed@),
            slots_view(list@) == kept_children(existing@, scan_path@, total_root, rm, i as int),
    {
        let cp = match &existing[i].name {
            Some(n) => child_path(scan_path, total_root, Some(n.as_str())),
            None => child_path(scan_path, total_root, None),
        };
        let keep = match &cp {
            Some(p) => !contains_string(removed, p),
            None => true,
        };
        if keep {
            let ghost before = slots_view(list@);
            list.push(Slot {
                child: MergedChild::Cached(i),
                name: crate::cloud_items::copy_opt_string(&existing[i].name),
                size: existing[i].size,
            });
            assert(slots_view(list@) == before.push(slot_view(list@.last())));
        }
    }
    for j in 0..changed.len()
        invariant
            rm == strings_view(removed@),
            slots_view(list@) == place_all(
                kept_children(existing@, scan_path@, total_root, rm, existing@.len() as int),
                scan_path@,
                total_root,
                changed@,
                j as int,
            ),
    {
        let path: String = match &changed[j].name {
            Some(n) => n.clone(),
            None => String::new(),
        };
        if !path.as_str().is_empty() {
            let rename = if !total_root {
                crate::external::path_file_name(path.as_str())
            } else {
                None
            };
            let name = match &rename {
                Some(r) => r.clone(),
                None => path.clone(),
            };
            let slot = Slot { child: MergedChild::Scanned(j, rename), name: Some(name), size: changed[j].size };
            let ghost before = slots_view(list@);
            match first_at_path_exec(&list, scan_path, total_root, &path) {
                Some(k) => {
                    list.set(k, slot);
                    assert(slots_view(list@) == before.update(k as int, slot_view(list@[k as int])));
                },
                None => {
                    list.push(slot);
                    assert(slots_view(list@) == before.push(slot_view(list@.last())));
                },
            }
        }
    }
    let ghost final_entries = slots_view(list@);
    let mut children: Vec<MergedChild> = Vec::new();
    let mut size: Option<u64> = Some(0);
    for k in 0..list.len()
        invariant
            final_entries == slots_view(list@),
            children@.map_values(|c: MergedChild| merged_view(c)) == final_entries.take(k as int).map_values(
                |e: MergeEntry| entry_source(e),
            ),
            match size {
                Some(n) => n == entries_size(final_entries.take(k as int)),
                None => entries_size(final_entries.take(k as int)) > u64::MAX,
            },
    {
        assert(final_entries.take(k + 1).drop_last() == final_entries.take(k as int));
        assert(final_entries.take(k + 1).last() == slot_view(list@[k as int]));
        let c = slot_copy(&list[k]);
        let ghost before = children@.map_values(|c: MergedChild| merged_view(c));
        children.push(c.child);
        assert(children@.map_values(|c: MergedChild| merged_view(c)) == before.push(merged_view(children@.last())));
        size = match size {
            Some(n) => n.checked_add(list[k].size),
            None => None,
        };
    }
    assert(final_entries.take(list.len() as int) == final_entries);
    MergePlan { children, size }
}

/// What the merge reads of a cached result: `None` when it has no tree;
/// otherwise the tree's name, when it is a string, and its children, when
/// they form a list.
pub struct CachedTreeInfo {
    pub name: Option<String>,
    pub children: Option<Vec<ChildInfo>>,
}

/// Plans the merge of a rescan into a cached result: the result must have a
/// tree, and the tree a list of children; the plan is then `plan_merge`'s,
/// with the tree's name saying whether it lists scanned paths.
pub fn plan_cached_merge(
    scan_path: &str,
    tree: &Option<CachedTreeInfo>,
    removed: &Vec<String>,
    changed: &Vec<ChildInfo>,
) -> (r: Result<MergePlan, String>)
    ensures
        match tree {
            None => r matches Err(e) && e@ == "Cached scan has no tree"@,
            Some(t) => match t.children {
                None => r matches Err(e) && e@ == "Cached scan tree has no children"@,
                Some(ex) => {
                    let total_root = opt_str_view_of(t.name) == Some("(total)"@);
                    let m = merged_children(ex@, scan_path@, total_root, strings_view(removed@), changed@);
                    &&& r matches Ok(plan)
                    &&& plan.children@.map_values(|c: MergedChild| merged_view(c)) == m.map_values(
                        |e: MergeEntry| entry_source(e),
                    )
                    &&& match plan.size {
                        Some(n) => n == entries_size(m),
                        None => entries_size(m) > u64::MAX,
                    }
                },
            },
        },
{
    match tree {
        None => Err(to_owned_string("Cached scan has no tree")),
        Some(t) => match &t.children {
            None => Err(to_owned_string("Cached scan tree has no children")),
            Some(ex) => {
                let total_root = match &t.name {
                    Some(n) => is_total_root(Some(n.as_str())),
                    None => is_total_root(None),
                };
                Ok(plan_merge(scan_path, total_root, ex, removed, changed))
            },
        },
    }
}

pub open spec fn opt_str_view_of(o: Option<String>) -> Option<Seq<char>> {
    match o {
        Some(s) => Some(s@),
        None => None,
    }
}

/// A cached result may only be read from the temporary directory.
pub fn check_result_location(path: &str, temp_dir: &str) -> (r: Result<(), String>)
    ensures
        r is Ok <==> crate::external::spec_path_starts_with(path@, temp_dir@),
        r matches Err(e) ==> e@ == "Refusing to read scan result outside the temporary directory"@,
{
    if crate::external::path_starts_with(path, temp_dir) {
        Ok(())
    } else {
        Err(to_owned_string("Refusing to read scan result outside the temporary directory"))
    }
}

/// An error report may only be read from the temporary directory.
pub fn check_report_location(path: &str, temp_dir: &str) -> (r: Result<(), String>)
    ensures
        r is Ok <==> crate::external::spec_path_starts_with(path@, temp_dir@),
        r matches Err(e) ==> e@ == "Refusing to read scan error report outside the temporary directory"@,
{
    if crate::external::path_starts_with(path, temp_dir) {
        Ok(())
    } else {
        Err(to_owned_string("Refusing to read scan error report outside the temporary directory"))
    }
}


// ---------------------------------------------------------------------
// Laws
// ---------------------------------------------------------------------

/// Every recorded error is counted exactly once.
pub proof fn law_counts_total(rs: Seq<ScanErrorRecord>)
    ensures
        count_kind(rs, "operationNotPermitted"@) + count_kind(rs, "permissionDenied"@) + count_kind(rs, "interrupted"@)
            + count_other(rs) == rs.len(),
    decreases rs.len(),
{
    reveal_strlit("operationNotPermitted");
    reveal_strlit("permissionDenied");
    reveal_strlit("interrupted");
    if rs.len() > 0 {
        law_counts_total(rs.drop_last());
        lemma_count_step(rs);
        let k = rs.last().kind@;
        assert("operationNotPermitted"@[0] == 'o');
        assert("permissionDenied"@[0] == 'p');
        assert("interrupted"@[0] == 'i');
        if k == "operationNotPermitted"@ {
        } else if k == "permissionDenied"@ {
        } else if k == "interrupted"@ {
        } else {
        }
    }
}

proof fn lemma_kept_not_removed(ex: Seq<ChildInfo>, scan_path: Seq<char>, total_root: bool, removed: Seq<Seq<char>>, n: int)
    requires
        0 <= n <= ex.len(),
    ensures
        forall|k: int| 0 <= k < kept_children(ex, scan_path, total_root, removed, n).len() ==> ({
            let e = #[trigger] kept_children(ex, scan_path, total_root, removed, n)[k];
            &&& e.cached
            &&& 0 <= e.index < n
            &&& e.name == info_name(ex[e.index])
            &&& match child_path_spec(scan_path, total_root, e.name) {
                Some(p) => !removed.contains(p),
                None => true,
            }
        }),
    decreases n,
{
    if n > 0 {
        lemma_kept_not_removed(ex, scan_path, total_root, removed, n - 1);
    }
}

proof fn lemma_first_at_path_range(list: Seq<MergeEntry>, scan_path: Seq<char>, total_root: bool, path: Seq<char>, k: int)
    ensures
        first_at_path(list, scan_path, total_root, path, k) matches Some(i) ==> k <= i < list.len(),
    decreases list.len() - k,
{
    if 0 <= k < list.len() {
        lemma_first_at_path_range(list, scan_path, total_root, path, k + 1);
    }
}

proof fn lemma_place_keeps_cached(list: Seq<MergeEntry>, scan_path: Seq<char>, total_root: bool, changed: Seq<ChildInfo>, n: int)
    requires
        0 <= n <= changed.len(),
    ensures
        forall|k: int| 0 <= k < place_all(list, scan_path, total_root, changed, n).len()
            && (#[trigger] place_all(list, scan_path, total_root, changed, n)[k]).cached
            ==> list.contains(place_all(list, scan_path, total_root, changed, n)[k]),
    decreases n,
{
    if n > 0 {
        lemma_place_keeps_cached(list, scan_path, total_root, changed, n - 1);
        let prev = place_all(list, scan_path, total_root, changed, n - 1);
        let cur = place_all(list, scan_path, total_root, changed, n);
        assert(cur == place(prev, scan_path, total_root, changed, n - 1));
        assert forall|k: int| 0 <= k < cur.len() && (#[trigger] cur[k]).cached implies list.contains(cur[k]) by {
            let path = match info_name(changed[n - 1]) {
                Some(x) => x,
                None => Seq::empty(),
            };
            if path.len() == 0 {
                assert(cur == prev);
                assert(prev[k].cached);
            } else {
                lemma_first_at_path_range(prev, scan_path, total_root, path, 0);
                match first_at_path(prev, scan_path, total_root, path, 0) {
                    Some(i) => {
                        assert(cur.len() == prev.len());
                        assert(!cur[i].cached);
                        if k != i {
                            assert(cur[k] == prev[k]);
                        }
                    },
                    None => {
                        assert(cur.len() == prev.len() + 1);
                        assert(!cur[prev.len() as int].cached);
                        if k < prev.len() {
                            assert(cur[k] == prev[k]);
                        }
                    },
                }
            }
        }
    }
}

/// After a merge, no child kept from the cache lies at a removed path.
pub proof fn law_merge_drops_removed(ex: Seq<ChildInfo>, scan_path: Seq<char>, total_root: bool, removed: Seq<Seq<char>>, changed: Seq<ChildInfo>)
    ensures
        forall|k: int| 0 <= k < merged_children(ex, scan_path, total_root, removed, changed).len()
            && (#[trigger] merged_children(ex, scan_path, total_root, removed, changed)[k]).cached ==> match child_path_spec(
                scan_path,
                total_root,
                merged_children(ex, scan_path, total_root, removed, changed)[k].name,
            ) {
                Some(p) => !removed.contains(p),
                None => true,
            },
{
    let kept = kept_children(ex, scan_path, total_root, removed, ex.len() as int);
    lemma_kept_not_removed(ex, scan_path, total_root, removed, ex.len() as int);
    lemma_place_keeps_cached(kept, scan_path, total_root, changed, changed.len() as int);
    let m = merged_children(ex, scan_path, total_root, removed, changed);
    assert forall|k: int| 0 <= k < m.len() && (#[trigger] m[k]).cached implies match child_path_spec(scan_path, total_root, m[k].name) {
        Some(p) => !removed.contains(p),
        None => true,
    } by {
        assert(kept.contains(m[k]));
        let j = choose|j: int| 0 <= j < kept.len() && kept[j] == m[k];
        assert(kept[j] == m[k]);
    }
}

/// The entries that come from the cached tree are in the cached tree's
/// order, each at its own position there, and carry that child's name and
/// size; the others come from the rescan, each with its node's size.
pub open spec fn merge_entries_sound(
    list: Seq<MergeEntry>,
    ex: Seq<ChildInfo>,
    changed: Seq<ChildInfo>,
) -> bool {
    &&& forall|a: int, b: int| 0 <= a < b < list.len() && (#[trigger] list[a]).cached && (#[trigger] list[b]).cached
        ==> list[a].index < list[b].index
    &&& forall|k: int| 0 <= k < list.len() && (#[trigger] list[k]).cached ==> 0 <= list[k].index < ex.len()
        && list[k].name == info_name(ex[list[k].index]) && list[k].size == ex[list[k].index].size
        && list[k].rename is None
    &&& forall|k: int| 0 <= k < list.len() && !(#[trigger] list[k]).cached ==> 0 <= list[k].index < changed.len()
        && list[k].size == changed[list[k].index].size
}

proof fn lemma_kept_sound(ex: Seq<ChildInfo>, scan_path: Seq<char>, total_root: bool, removed: Seq<Seq<char>>, changed: Seq<ChildInfo>, n: int)
    requires
        n <= ex.len(),
    ensures
        merge_entries_sound(kept_children(ex, scan_path, total_root, removed, n), ex, changed),
        forall|k: int| 0 <= k < kept_children(ex, scan_path, total_root, removed, n).len()
            ==> (#[trigger] kept_children(ex, scan_path, total_root, removed, n)[k]).cached
            && kept_children(ex, scan_path, total_root, removed, n)[k].index < n,
    decreases n,
{
    if n > 0 {
        lemma_kept_sound(ex, scan_path, total_root, removed, changed, n - 1);
    }
}

proof fn lemma_place_sound(list: Seq<MergeEntry>, scan_path: Seq<char>, total_root: bool, ex: Seq<ChildInfo>, changed: Seq<ChildInfo>, j: int)
    requires
        0 <= j < changed.len(),
        merge_entries_sound(list, ex, changed),
    ensures
        merge_entries_sound(place(list, scan_path, total_root, changed, j), ex, changed),
{
    let path = match info_name(changed[j]) {
        Some(x) => x,
        None => Seq::empty(),
    };
    let cur = place(list, scan_path, total_root, changed, j);
    if path.len() > 0 {
        lemma_first_at_path_range(list, scan_path, total_root, path, 0);
        match first_at_path(list, scan_path, total_root, path, 0) {
            Some(i) => {
                assert forall|a: int, b: int| 0 <= a < b < cur.len() && (#[trigger] cur[a]).cached && (#[trigger] cur[b]).cached
                    implies cur[a].index < cur[b].index by {
                    assert(cur[a] == list[a] && cur[b] == list[b]);
                }
                assert forall|k: int| 0 <= k < cur.len() && (#[trigger] cur[k]).cached implies 0 <= cur[k].index < ex.len()
                    && cur[k].name == info_name(ex[cur[k].index]) && cur[k].size == ex[cur[k].index].size
                    && cur[k].rename is None by {
                    assert(cur[k] == list[k]);
                }
                assert forall|k: int| 0 <= k < cur.len() && !(#[trigger] cur[k]).cached implies 0 <= cur[k].index < changed.len()
                    && cur[k].size == changed[cur[k].index].size by {
                    if k != i {
                        assert(cur[k] == list[k]);
                    }
                }
            },
            None => {
                assert forall|a: int, b: int| 0 <= a < b < cur.len() && (#[trigger] cur[a]).cached && (#[trigger] cur[b]).cached
                    implies cur[a].index < cur[b].index by {
                    assert(cur[a] == list[a] && cur[b] == list[b]);
                }
                assert forall|k: int| 0 <= k < cur.len() && (#[trigger] cur[k]).cached implies 0 <= cur[k].index < ex.len()
                    && cur[k].name == info_name(ex[cur[k].index]) && cur[k].size == ex[cur[k].index].size
                    && cur[k].rename is None by {
                    assert(cur[k] == list[k]);
                }
                assert forall|k: int| 0 <= k < cur.len() && !(#[trigger] cur[k]).cached implies 0 <= cur[k].index < changed.len()
                    && cur[k].size == changed[cur[k].index].size by {
                    if k < list.len() {
                        assert(cur[k] == list[k]);
                    }
                }
            },
        }
    }
}

proof fn lemma_place_all_sound(list: Seq<MergeEntry>, scan_path: Seq<char>, total_root: bool, ex: Seq<ChildInfo>, changed: Seq<ChildInfo>, n: int)
    requires
        0 <= n <= changed.len(),
        merge_entries_sound(list, ex, changed),
    ensures
        merge_entries_sound(place_all(list, scan_path, total_root, changed, n), ex, changed),
    decreases n,
{
    if n > 0 {
        lemma_place_all_sound(list, scan_path, total_root, ex, changed, n - 1);
        lemma_place_sound(place_all(list, scan_path, total_root, changed, n - 1), scan_path, total_root, ex, changed, n - 1);
    }
}

/// Placing a node of the rescan: a node without a path changes nothing;
/// otherwise the node, renamed to its file name below a scanned folder,
/// replaces the first child at its path and leaves every other child where
/// it was, or, when no child lies at its path, joins the end.
pub proof fn law_place_node(list: Seq<MergeEntry>, scan_path: Seq<char>, total_root: bool, changed: Seq<ChildInfo>, j: int)
    requires
        0 <= j < changed.len(),
    ensures
        ({
            let cur = place(list, scan_path, total_root, changed, j);
            match info_name(changed[j]) {
                Some(path) if path.len() > 0 => {
                    let rename = if !total_root { crate::external::spec_path_file_name(path) } else { None };
                    let e = MergeEntry {
                        cached: false,
                        index: j,
                        rename,
                        name: Some(match rename { Some(r) => r, None => path }),
                        size: changed[j].size,
                    };
                    match first_at_path(list, scan_path, total_root, path, 0) {
                        Some(k) => 0 <= k < list.len()
                            && child_path_spec(scan_path, total_root, list[k].name) == Some(path)
                            && (forall|m: int| 0 <= m < k ==> child_path_spec(scan_path, total_root, #[trigger] list[m].name) != Some(path))
                            && cur.len() == list.len() && cur[k] == e
                            && (forall|m: int| 0 <= m < list.len() && m != k ==> #[trigger] cur[m] == list[m]),
                        None => (forall|m: int| 0 <= m < list.len() ==> child_path_spec(scan_path, total_root, #[trigger] list[m].name) != Some(path))
                            && cur == list.push(e),
                    }
                },
                _ => cur == list,
            }
        }),
{
    let path = match info_name(changed[j]) {
        Some(x) => x,
        None => Seq::empty(),
    };
    if path.len() > 0 {
        lemma_first_at_path_range(list, scan_path, total_root, path, 0);
        lemma_first_at_path_spec(list, scan_path, total_root, path, 0);
    }
}

proof fn lemma_first_at_path_spec(list: Seq<MergeEntry>, scan_path: Seq<char>, total_root: bool, path: Seq<char>, k: int)
    requires
        0 <= k,
    ensures
        match first_at_path(list, scan_path, total_root, path, k) {
            Some(i) => child_path_spec(scan_path, total_root, list[i].name) == Some(path)
                && forall|m: int| k <= m < i ==> child_path_spec(scan_path, total_root, #[trigger] list[m].name) != Some(path),
            None => forall|m: int| k <= m < list.len() ==> child_path_spec(scan_path, total_root, #[trigger] list[m].name) != Some(path),
        },
    decreases list.len() - k,
{
    if k < list.len() {
        lemma_first_at_path_spec(list, scan_path, total_root, path, k + 1);
    }
}

/// The merged children: those kept from the cache stay in the cache's
/// order, each with its own name and size, and none lies at a removed path;
/// the others are nodes of the rescan, each placed as `law_place_node`
/// says; the merged size is the sum of the children's sizes.
pub proof fn law_merge_shape(ex: Seq<ChildInfo>, scan_path: Seq<char>, total_root: bool, removed: Seq<Seq<char>>, changed: Seq<ChildInfo>)
    ensures
        merge_entries_sound(merged_children(ex, scan_path, total_root, removed, changed), ex, changed),
        forall|k: int| 0 <= k < merged_children(ex, scan_path, total_root, removed, changed).len()
            && (#[trigger] merged_children(ex, scan_path, total_root, removed, changed)[k]).cached ==> match child_path_spec(
                scan_path,
                total_root,
                merged_children(ex, scan_path, total_root, removed, changed)[k].name,
            ) {
                Some(p) => !removed.contains(p),
                None => true,
            },
        merged_children(ex, scan_path, total_root, removed, changed) == place_all(
            kept_children(ex, scan_path, total_root, removed, ex.len() as int),
            scan_path,
            total_root,
            changed,
            changed.len() as int,
        ),
        entries_size(Seq::<MergeEntry>::empty()) == 0,
        forall|v: Seq<MergeEntry>, e: MergeEntry| #[trigger] entries_size(v.push(e)) == entries_size(v) + e.size,
{
    law_merge_drops_removed(ex, scan_path, total_root, removed, changed);
    lemma_kept_sound(ex, scan_path, total_root, removed, changed, ex.len() as int);
    lemma_place_all_sound(
        kept_children(ex, scan_path, total_root, removed, ex.len() as int),
        scan_path,
        total_root,
        ex,
        changed,
        changed.len() as int,
    );
    assert forall|v: Seq<MergeEntry>, e: MergeEntry| #[trigger] entries_size(v.push(e)) == entries_size(v) + e.size by {
        assert(v.push(e).drop_last() == v);
    }
}

/// No two children that lie at a path lie at the same one.
pub open spec fn paths_distinct(list: Seq<MergeEntry>, scan_path: Seq<char>, total_root: bool) -> bool {
    forall|a: int, b: int|
        0 <= a < b < list.len() && child_path_spec(scan_path, total_root, (#[trigger] list[a]).name) is Some
            ==> child_path_spec(scan_path, total_root, list[a].name) != child_path_spec(
            scan_path,
            total_root,
            (#[trigger] list[b]).name,
        )
}

/// No two children of the cached tree that lie at a path lie at the same one.
pub open spec fn cached_paths_distinct(ex: Seq<ChildInfo>, scan_path: Seq<char>, total_root: bool) -> bool {
    forall|a: int, b: int|
        0 <= a < b < ex.len() && child_path_spec(scan_path, total_root, info_name(#[trigger] ex[a])) is Some
            ==> child_path_spec(scan_path, total_root, info_name(ex[a])) != child_path_spec(
            scan_path,
            total_root,
            info_name(#[trigger] ex[b]),
        )
}

/// Node `j` of the rescan, once placed under the name it is given, lies at
/// the path it is named by (below a scanned folder: its path's parent is
/// the scanned path).
pub open spec fn placed_at_own_path(scan_path: Seq<char>, total_root: bool, changed: Seq<ChildInfo>, j: int) -> bool {
    match info_name(changed[j]) {
        Some(path) if path.len() > 0 => {
            let rename = if !total_root {
                crate::external::spec_path_file_name(path)
            } else {
                None
            };
            child_path_spec(scan_path, total_root, Some(match rename {
                Some(r) => r,
                None => path,
            })) == Some(path)
        },
        _ => true,
    }
}

proof fn lemma_place_distinct(list: Seq<MergeEntry>, scan_path: Seq<char>, total_root: bool, changed: Seq<ChildInfo>, j: int)
    requires
        0 <= j < changed.len(),
        paths_distinct(list, scan_path, total_root),
        placed_at_own_path(scan_path, total_root, changed, j),
    ensures
        paths_distinct(place(list, scan_path, total_root, changed, j), scan_path, total_root),
{
    let path = match info_name(changed[j]) {
        Some(x) => x,
        None => Seq::empty(),
    };
    let cur = place(list, scan_path, total_root, changed, j);
    if path.len() > 0 {
        lemma_first_at_path_range(list, scan_path, total_root, path, 0);
        lemma_first_at_path_spec(list, scan_path, total_root, path, 0);
        match first_at_path(list, scan_path, total_root, path, 0) {
            Some(k) => {
                assert forall|m: int| 0 <= m < cur.len() implies child_path_spec(scan_path, total_root, (#[trigger] cur[m]).name)
                    == child_path_spec(scan_path, total_root, list[m].name) by {}
                assert forall|a: int, b: int|
                    0 <= a < b < cur.len() && child_path_spec(scan_path, total_root, (#[trigger] cur[a]).name) is Some
                    implies child_path_spec(scan_path, total_root, cur[a].name) != child_path_spec(
                        scan_path,
                        total_root,
                        (#[trigger] cur[b]).name,
                    ) by {
                    assert(child_path_spec(scan_path, total_root, cur[a].name) == child_path_spec(scan_path, total_root, list[a].name));
                    assert(child_path_spec(scan_path, total_root, cur[b].name) == child_path_spec(scan_path, total_root, list[b].name));
                }
            },
            None => {
                assert forall|a: int, b: int|
                    0 <= a < b < cur.len() && child_path_spec(scan_path, total_root, (#[trigger] cur[a]).name) is Some
                    implies child_path_spec(scan_path, total_root, cur[a].name) != child_path_spec(
                        scan_path,
                        total_root,
                        (#[trigger] cur[b]).name,
                    ) by {
                    assert(cur[a] == list[a]);
                    if b < list.len() {
                        assert(cur[b] == list[b]);
                    }
                }
            },
        }
    }
}

proof fn lemma_place_all_distinct(list: Seq<MergeEntry>, scan_path: Seq<char>, total_root: bool, changed: Seq<ChildInfo>, n: int)
    requires
        0 <= n <= changed.len(),
        paths_distinct(list, scan_path, total_root),
        forall|j: int| 0 <= j < changed.len() ==> #[trigger] placed_at_own_path(scan_path, total_root, changed, j),
    ensures
        paths_distinct(place_all(list, scan_path, total_root, changed, n), scan_path, total_root),
    decreases n,
{
    if n > 0 {
        lemma_place_all_distinct(list, scan_path, total_root, changed, n - 1);
        assert(placed_at_own_path(scan_path, total_root, changed, n - 1));
        lemma_place_distinct(place_all(list, scan_path, total_root, changed, n - 1), scan_path, total_root, changed, n - 1);
    }
}

/// The merged children lie at distinct paths, where the cached children
/// did and every node of the rescan lies at the path it is named by.
pub proof fn law_merge_paths_distinct(
    ex: Seq<ChildInfo>,
    scan_path: Seq<char>,
    total_root: bool,
    removed: Seq<Seq<char>>,
    changed: Seq<ChildInfo>,
)
    requires
        cached_paths_distinct(ex, scan_path, total_root),
        forall|j: int| 0 <= j < changed.len() ==> #[trigger] placed_at_own_path(scan_path, total_root, changed, j),
    ensures
        paths_distinct(merged_children(ex, scan_path, total_root, removed, changed), scan_path, total_root),
{
    let kept = kept_children(ex, scan_path, total_root, removed, ex.len() as int);
    lemma_kept_sound(ex, scan_path, total_root, removed, changed, ex.len() as int);
    assert forall|a: int, b: int|
        0 <= a < b < kept.len() && child_path_spec(scan_path, total_root, (#[trigger] kept[a]).name) is Some
        implies child_path_spec(scan_path, total_root, kept[a].name) != child_path_spec(
            scan_path,
            total_root,
            (#[trigger] kept[b]).name,
        ) by {
        let ia = kept[a].index;
        let ib = kept[b].index;
        assert(ia < ib);
        assert(child_path_spec(scan_path, total_root, info_name(ex[ia])) is Some);
        assert(child_path_spec(scan_path, total_root, info_name(ex[ia])) != child_path_spec(
            scan_path,
            total_root,
            info_name(ex[ib]),
        ));
    }
    lemma_place_all_distinct(kept, scan_path, total_root, changed, changed.len() as int);
}

} // verus!
