//! SSH connections through an in-process SSH client, as the Mac App Store
//! build makes them: host identity pinning, stored secrets, the remote
//! commands, and the streamed output of a scan.

use vstd::prelude::*;
pub use crate::ssh::{SshAuthMethod, SshDeleteFailure, SshDeleteResult, SshStorageUsage, cached_result_usable, check_scan_output, deletion_clears_cache, failure_reported, parse_progress, shell_quote};
use crate::external::{base64_no_pad, spec_base64_no_pad, spec_json_string_array};
use crate::oauth::{not_newline, prefix_while, lemma_prefix_while_at, lemma_prefix_while_bound};
use crate::scan_table::ScanTable;
use crate::ssh::{path_error, progress_fields, python_command, scan_label, shell_quote_spec, strings_view};
use crate::text::{chars_of, decimal_seq, is_blank, is_whitespace, is_ws, push_chars, push_str, seq_contains, slice_chars, string_from_chars, to_owned_string, trim_chars, trim_seq, u64_to_decimal};

verus! {

/// Deletes the items (a JSON list, second argument) that lie below the
/// remote path (first argument), and reports what it did, as JSON.
pub const DELETE_SCRIPT: &'static str = r#"import json, os, stat, sys
root = os.path.realpath(sys.argv[1])
requested = json.loads(sys.argv[2])
deleted = []
failures = []
root_device = os.lstat(root).st_dev
def remove_tree(path):
    with os.scandir(path) as entries:
        for entry in entries:
            info = entry.stat(follow_symlinks=False)
            if info.st_dev != root_device:
                continue
            if stat.S_ISDIR(info.st_mode) and not stat.S_ISLNK(info.st_mode):
                remove_tree(entry.path)
            else:
                os.unlink(entry.path)
    os.rmdir(path)
for raw in requested:
    absolute = os.path.abspath(raw)
    path = os.path.join(os.path.realpath(os.path.dirname(absolute)), os.path.basename(absolute))
    try:
        inside = os.path.commonpath([root, path]) == root
    except ValueError:
        inside = False
    if not inside or path == root:
        failures.append({"itemId":raw,"message":"Refusing to delete outside the configured remote path or delete its root"})
        continue
    try:
        info = os.lstat(path)
        if info.st_dev != root_device:
            raise OSError("Item is on a different filesystem")
        if stat.S_ISDIR(info.st_mode) and not stat.S_ISLNK(info.st_mode):
            remove_tree(path)
        elif stat.S_ISREG(info.st_mode) or stat.S_ISLNK(info.st_mode):
            os.unlink(path)
        else:
            raise OSError("Refusing to delete a device or other special file")
        deleted.append(raw)
    except OSError as error:
        failures.append({"itemId":raw,"message":str(error)})
print(json.dumps({"deletedIds":deleted,"failures":failures}, separators=(",",":")))"#;

/// Walks the remote path (first argument), reporting progress on its
/// error output, and prints the tree, named by the second argument, as
/// JSON.
pub const SCAN_SCRIPT: &'static str = r#"import json, os, stat, sys
root = os.path.abspath(sys.argv[1])
errors = 0
items = 0
total = 0
try:
    root_device = os.lstat(root).st_dev
except OSError:
    raise SystemExit("Remote path could not be read")
def progress():
    sys.stderr.write("DUCKDISK_PROGRESS\t{}\t{}\n".format(items, total))
    sys.stderr.flush()
def walk(path):
    global errors, items, total
    try:
        info = os.lstat(path)
    except OSError:
        errors += 1
        return None
    folder = stat.S_ISDIR(info.st_mode) and not stat.S_ISLNK(info.st_mode)
    regular = stat.S_ISREG(info.st_mode) and not stat.S_ISLNK(info.st_mode)
    if path != root and info.st_dev != root_device:
        return None
    if not folder and not regular:
        return None
    items += 1
    node = {"name":os.path.basename(path) or path,"cloudId":path,"isDirectory":folder,"size":0,"children":[]}
    if not folder:
        blocks = getattr(info, "st_blocks", None)
        node["size"] = max(0, int(blocks) * 512 if blocks is not None else int(info.st_size))
        total += node["size"]
        if items % 512 == 0:
            progress()
        return node
    try:
        with os.scandir(path) as entries:
            for entry in entries:
                child = walk(entry.path)
                if child is not None:
                    node["children"].append(child)
    except OSError:
        errors += 1
    node["children"].sort(key=lambda child: child["size"], reverse=True)
    node["size"] = sum(child["size"] for child in node["children"])
    if items % 512 == 0:
        progress()
    return node
tree = walk(root)
if tree is None:
    raise SystemExit("Remote path could not be read")
tree["displayName"] = sys.argv[2]
progress()
print(json.dumps({"schema-version":"duckdisk-cloud-v1","unit":"bytes","tree":tree,"remoteErrors":errors,"remoteItems":items}, separators=(",",":")))"#;

/// A saved SSH connection, with the host key it was verified against.
#[derive(Debug)]
pub struct SshConnection {
    pub id: String,
    pub name: String,
    pub host: String,
    pub port: u16,
    pub path: String,
    pub auth_method: SshAuthMethod,
    pub trusted_host_key: String,
    pub has_private_key: bool,
    pub storage_usage: Option<SshStorageUsage>,
}

/// What the settings form sends to save a connection.
#[derive(Debug)]
pub struct SshConnectionInput {
    pub id: Option<String>,
    pub name: String,
    pub host: String,
    pub port: u16,
    pub path: String,
    pub auth_method: SshAuthMethod,
    pub password: String,
    pub private_key_path: String,
    pub key_passphrase: String,
    pub trusted_host_key: String,
}

pub ghost struct ConnectionView {
    pub id: Seq<char>,
    pub name: Seq<char>,
    pub host: Seq<char>,
    pub port: u16,
    pub path: Seq<char>,
    pub auth_method: SshAuthMethod,
    pub trusted_host_key: Seq<char>,
    pub has_private_key: bool,
    pub storage_usage: Option<SshStorageUsage>,
}

impl View for SshConnection {
    type V = ConnectionView;

    open spec fn view(&self) -> ConnectionView {
        ConnectionView {
            id: self.id@,
            name: self.name@,
            host: self.host@,
            port: self.port,
            path: self.path@,
            auth_method: self.auth_method,
            trusted_host_key: self.trusted_host_key@,
            has_private_key: self.has_private_key,
            storage_usage: self.storage_usage,
        }
    }
}

pub open spec fn connections_view(v: Seq<SshConnection>) -> Seq<ConnectionView> {
    v.map_values(|c: SshConnection| c@)
}

impl SshConnection {
    /// A copy of the connection.
    pub fn duplicate(&self) -> (r: SshConnection)
        ensures
            r@ == self@,
    {
        SshConnection {
            id: self.id.clone(),
            name: self.name.clone(),
            host: self.host.clone(),
            port: self.port,
            path: self.path.clone(),
            auth_method: self.auth_method,
            trusted_host_key: self.trusted_host_key.clone(),
            has_private_key: self.has_private_key,
            storage_usage: self.storage_usage,
        }
    }
}

/// This build never runs as an `ssh` password helper.
pub fn run_askpass_helper() -> (r: Result<bool, String>)
    ensures
        r == Ok::<bool, String>(false),
{
    Ok(false)
}

// ---------------------------------------------------------------------
// Hosts and fields
// ---------------------------------------------------------------------

/// The position of the last `@`, if any.
pub open spec fn last_at(v: Seq<char>, k: int) -> Option<int>
    decreases k,
{
    if k <= 0 {
        None
    } else if v[k - 1] == '@' {
        Some(k - 1)
    } else {
        last_at(v, k - 1)
    }
}

/// The user and host of `user@host` (split at the last `@`), after
/// trimming: an empty value, one starting with `-` or one holding
/// whitespace is refused, and so is one without a user and a host.
pub open spec fn user_and_host(value: Seq<char>) -> Result<(Seq<char>, Seq<char>), Seq<char>> {
    let v = trim_seq(value);
    if v.len() == 0 || v[0] == '-' || (exists|i: int| 0 <= i < v.len() && is_ws(v[i])) {
        Err("Enter an SSH host as user@example.com"@)
    } else {
        match last_at(v, v.len() as int) {
            Some(p) => if p > 0 && p + 1 < v.len() {
                Ok((v.take(p), v.skip(p + 1)))
            } else {
                Err("The Mac App Store SSH client requires a host in user@example.com format"@)
            },
            None => Err("The Mac App Store SSH client requires a host in user@example.com format"@),
        }
    }
}

/// Splits `user@host`.
pub fn split_user_and_host(value: &str) -> (r: Result<(String, String), String>)
    ensures
        match r {
            Ok((u, h)) => user_and_host(value@) == Ok::<(Seq<char>, Seq<char>), Seq<char>>((u@, h@)),
            Err(e) => user_and_host(value@) == Err::<(Seq<char>, Seq<char>), Seq<char>>(e@),
        },
{
    let c = chars_of(value);
    let v = trim_chars(c.as_slice());
    let mut bad = v.len() == 0 || v[0] == '-';
    for i in 0..v.len()
        invariant
            bad == (v@.len() == 0 || v@[0] == '-' || (exists|k: int| 0 <= k < i && is_ws(v@[k]))),
    {
        if is_whitespace(v[i]) {
            bad = true;
        }
    }
    if bad {
        return Err(to_owned_string("Enter an SSH host as user@example.com"));
    }
    let mut k: usize = v.len();
    while k > 0 && v[k - 1] != '@'
        invariant
            k <= v@.len(),
            last_at(v@, v@.len() as int) == last_at(v@, k as int),
        decreases k,
    {
        k = k - 1;
    }
    if k == 0 {
        return Err(to_owned_string("The Mac App Store SSH client requires a host in user@example.com format"));
    }
    let p = k - 1;
    if p > 0 && p + 1 < v.len() {
        let u = slice_chars(v.as_slice(), 0, p);
        let h = slice_chars(v.as_slice(), p + 1, v.len());
        assert(u@ == v@.take(p as int));
        assert(h@ == v@.skip(p + 1));
        Ok((string_from_chars(u.as_slice()), string_from_chars(h.as_slice())))
    } else {
        Err(to_owned_string("The Mac App Store SSH client requires a host in user@example.com format"))
    }
}

/// The first error in the connection fields: the host, then the port, then
/// the path.
pub open spec fn fields_error(host: Seq<char>, port: u16, path: Seq<char>) -> Option<Seq<char>> {
    match user_and_host(host) {
        Err(e) => Some(e),
        Ok(_) => if port == 0 {
            Some("SSH port must be between 1 and 65535"@)
        } else {
            path_error(path)
        },
    }
}

/// Checks the trimmed connection fields.
pub fn validate_connection_fields(host: &str, port: u16, path: &str) -> (r: Result<(), String>)
    ensures
        match fields_error(host@, port, path@) {
            Some(m) => r matches Err(e) && e@ == m,
            None => r is Ok,
        },
{
    split_user_and_host(host)?;
    if port == 0 {
        return Err(to_owned_string("SSH port must be between 1 and 65535"));
    }
    let p = chars_of(path);
    crate::ssh::check_remote_path(p.as_slice())
}

/// A host name with the brackets of an IPv6 literal removed.
pub open spec fn bare_host(h: Seq<char>) -> Seq<char> {
    if h.len() >= 2 && h[0] == '[' && h[h.len() - 1] == ']' {
        h.subrange(1, h.len() - 1)
    } else {
        h
    }
}

/// Removes the brackets around an IPv6 literal.
pub fn bare_hostname(hostname: &str) -> (r: String)
    ensures
        r@ == bare_host(hostname@),
{
    let c = chars_of(hostname);
    if c.len() >= 2 && c[0] == '[' && c[c.len() - 1] == ']' {
        let inner = slice_chars(c.as_slice(), 1, c.len() - 1);
        string_from_chars(inner.as_slice())
    } else {
        to_owned_string(hostname)
    }
}

/// A host-key fingerprint as OpenSSH prints it: `SHA256:` and the base64
/// of the SHA-256 hash, unpadded.
pub fn fingerprint_text(hash: &[u8]) -> (r: String)
    ensures
        r@ == "SHA256:"@ + spec_base64_no_pad(hash@),
{
    let mut s = to_owned_string("SHA256:");
    push_str(&mut s, base64_no_pad(hash).as_str());
    s
}

/// The fingerprint the user confirmed must be the one the server shows.
pub fn check_inspected_key(trusted_host_key: &str, inspected: &str, host: &str, port: u16) -> (r: Result<(), String>)
    ensures
        r is Ok <==> trusted_host_key@ == inspected@,
        r matches Err(e) ==> e@ == "The saved SSH host fingerprint does not match "@ + host@ + ":"@
            + decimal_seq(port as nat) + ". Expected "@ + inspected@,
{
    let a = to_owned_string(trusted_host_key);
    let b = to_owned_string(inspected);
    if a == b {
        return Ok(());
    }
    let mut m = to_owned_string("The saved SSH host fingerprint does not match ");
    push_str(&mut m, host);
    push_str(&mut m, ":");
    let d = u64_to_decimal(port as u64);
    push_chars(&mut m, d.as_slice());
    push_str(&mut m, ". Expected ");
    push_str(&mut m, inspected);
    Err(m)
}

/// A saved connection only talks to the server whose key was verified.
pub fn check_host_identity(host: &str, trusted_host_key: &str, actual: &str) -> (r: Result<(), String>)
    ensures
        r is Ok <==> trusted_host_key@ == actual@,
        r matches Err(e) ==> e@ == "SSH host identity changed for "@ + host@ + ". Expected "@ + trusted_host_key@
            + ", received "@ + actual@ + ". Edit the connection and verify the server before reconnecting."@,
{
    let a = to_owned_string(trusted_host_key);
    let b = to_owned_string(actual);
    if a == b {
        return Ok(());
    }
    let mut m = to_owned_string("SSH host identity changed for ");
    push_str(&mut m, host);
    push_str(&mut m, ". Expected ");
    push_str(&mut m, trusted_host_key);
    push_str(&mut m, ", received ");
    push_str(&mut m, actual);
    push_str(&mut m, ". Edit the connection and verify the server before reconnecting.");
    Err(m)
}

/// A key file must hold a private key.
pub fn check_private_key(content: &str) -> (r: Result<(), String>)
    ensures
        r is Ok <==> seq_contains(content@, "PRIVATE KEY"@),
        r matches Err(e) ==> e@ == "The selected file is not an SSH private key"@,
{
    let c = chars_of(content);
    if crate::text::contains_str(c.as_slice(), "PRIVATE KEY") {
        Ok(())
    } else {
        Err(to_owned_string("The selected file is not an SSH private key"))
    }
}

// ---------------------------------------------------------------------
// Exit statuses
// ---------------------------------------------------------------------

/// Decimal text of a signed number.
pub open spec fn signed_text(n: i32) -> Seq<char> {
    if n < 0 {
        "-"@ + decimal_seq((-(n as int)) as nat)
    } else {
        decimal_seq(n as nat)
    }
}

pub fn signed_decimal(n: i32) -> (r: String)
    ensures
        r@ == signed_text(n),
{
    if n < 0 {
        let w: i64 = 0i64 - (n as i64);
        assert(w > 0 && w == -(n as int));
        let m: u64 = w as u64;
        let d = u64_to_decimal(m);
        let mut s = to_owned_string("-");
        push_chars(&mut s, d.as_slice());
        s
    } else {
        let d = u64_to_decimal(n as u64);
        string_from_chars(d.as_slice())
    }
}

/// The error for a remote command that exited with a non-zero status:
/// what it wrote on its error output, trimmed, or else its status.
pub open spec fn command_failure_text(label: Seq<char>, status: i32, stderr: Seq<char>) -> Option<Seq<char>> {
    if status == 0 {
        None
    } else if trim_seq(stderr).len() == 0 {
        Some(label + " exited with status "@ + signed_text(status))
    } else {
        Some(label + " failed: "@ + trim_seq(stderr))
    }
}

/// The error for a remote command (`SSH command`, `SSH scan`), if it
/// failed.
pub fn command_failure(label: &str, status: i32, stderr: &str) -> (r: Option<String>)
    ensures
        match r {
            Some(m) => command_failure_text(label@, status, stderr@) == Some(m@),
            None => command_failure_text(label@, status, stderr@) is None,
        },
{
    if status == 0 {
        return None;
    }
    let c = chars_of(stderr);
    let t = trim_chars(c.as_slice());
    let mut m = to_owned_string(label);
    if t.len() == 0 {
        push_str(&mut m, " exited with status ");
        push_str(&mut m, signed_decimal(status).as_str());
    } else {
        push_str(&mut m, " failed: ");
        push_chars(&mut m, t.as_slice());
    }
    Some(m)
}

// ---------------------------------------------------------------------
// The streamed output of a scan
// ---------------------------------------------------------------------

/// The complete lines of a text, in order: the progress they report, what
/// the other non-blank lines add to the error text (each with its line
/// feed), and the unfinished last line.
#[verifier::opaque]
pub open spec fn line_events(t: Seq<char>) -> (Seq<(u64, u64)>, Seq<char>, Seq<char>)
    decreases t.len(),
{
    let p = prefix_while(t, not_newline());
    if p >= t.len() {
        (Seq::empty(), Seq::empty(), t)
    } else {
        let line = t.take(p as int);
        proof {
            lemma_prefix_while_bound(t, not_newline());
        }
        let rest = line_events(t.skip(p as int + 1));
        match progress_fields(line) {
            Some(x) => (seq![x] + rest.0, rest.1, rest.2),
            None => (rest.0, if trim_seq(line).len() > 0 {
                line + "\n"@ + rest.1
            } else {
                rest.1
            }, rest.2),
        }
    }
}

/// What the lines of a text give, from the first complete line on.
pub open spec fn line_step(line: Seq<char>, rest: (Seq<(u64, u64)>, Seq<char>, Seq<char>)) -> (Seq<(u64, u64)>, Seq<char>, Seq<char>) {
    match progress_fields(line) {
        Some(x) => (seq![x] + rest.0, rest.1, rest.2),
        None => (rest.0, if trim_seq(line).len() > 0 {
            line + "\n"@ + rest.1
        } else {
            rest.1
        }, rest.2),
    }
}

proof fn lemma_line_events_step(text: Seq<char>, start: int, j: int)
    requires
        0 <= start <= j < text.len(),
        text[j] == '\n',
        forall|m: int| start <= m < j ==> text[m] != '\n',
    ensures
        line_events(text.skip(start)) == line_step(text.subrange(start, j), line_events(text.skip(j + 1))),
{
    reveal(line_events);
    assert forall|m: int| start <= m < j implies (#[trigger] not_newline()(text[m])) by {}
    lemma_prefix_while_at(text, not_newline(), start, j);
    let u = text.skip(start);
    assert(u.take(j - start) == text.subrange(start, j));
    assert(u.skip(j - start + 1) == text.skip(j + 1));
}

proof fn lemma_line_events_end(text: Seq<char>, start: int)
    requires
        0 <= start <= text.len(),
        forall|m: int| start <= m < text.len() ==> text[m] != '\n',
    ensures
        line_events(text.skip(start)) == (Seq::<(u64, u64)>::empty(), Seq::<char>::empty(), text.skip(start)),
{
    reveal(line_events);
    assert forall|m: int| start <= m < text.len() implies (#[trigger] not_newline()(text[m])) by {}
    lemma_prefix_while_at(text, not_newline(), start, text.len() as int);
}

/// The error output of a streaming scan as it arrives in chunks.
#[derive(Debug)]
pub struct StreamLog {
    pub tail: Vec<char>,
    pub stderr: Vec<char>,
}

impl StreamLog {
    pub fn new() -> (r: StreamLog)
        ensures
            r.tail@.len() == 0,
            r.stderr@.len() == 0,
    {
        StreamLog { tail: Vec::new(), stderr: Vec::new() }
    }

    /// Takes a chunk of error output: the lines it completes give the
    /// progress to report, in order, and the other non-blank lines join
    /// the error text.
    pub fn absorb(&mut self, chunk: &str) -> (r: Vec<(u64, u64)>)
        ensures
            ({
                let (ev, er, tl) = line_events(old(self).tail@ + chunk@);
                &&& r@ == ev
                &&& final(self).stderr@ == old(self).stderr@ + er
                &&& final(self).tail@ == tl
            }),
    {
        let c = chars_of(chunk);
        let mut t: Vec<char> = Vec::new();
        for i in 0..self.tail.len()
            invariant
                t@ == self.tail@.take(i as int),
        {
            t.push(self.tail[i]);
            assert(self.tail@.take(i + 1) == self.tail@.take(i as int).push(self.tail@[i as int]));
        }
        assert(self.tail@.take(self.tail@.len() as int) == self.tail@);
        for i in 0..c.len()
            invariant
                t@ == old(self).tail@ + c@.take(i as int),
        {
            t.push(c[i]);
            assert(c@.take(i + 1) == c@.take(i as int).push(c@[i as int]));
        }
        assert(c@.take(c@.len() as int) == c@);
        assert(c@ == chunk@);
        let ghost text = t@;
        let ghost er0 = self.stderr@;
        let ghost total = line_events(text);
        let mut events: Vec<(u64, u64)> = Vec::new();
        let mut start: usize = 0;
        assert(text.skip(0) == text);
        loop
            invariant
                start <= text.len(),
                t@ == text,
                total == line_events(text),
                text == old(self).tail@ + chunk@,
                er0 == old(self).stderr@,
                events@ + line_events(text.skip(start as int)).0 == total.0,
                self.stderr@ + line_events(text.skip(start as int)).1 == er0 + total.1,
                line_events(text.skip(start as int)).2 == total.2,
            ensures
                events@ == total.0,
                self.stderr@ == er0 + total.1,
                self.tail@ == total.2,
            decreases text.len() - start,
        {
            let mut j: usize = start;
            while j < t.len() && t[j] != '\n'
                invariant
                    start <= j <= text.len(),
                    t@ == text,
                    forall|m: int| start <= m < j ==> #[trigger] text[m] != '\n',
                decreases t.len() - j,
            {
                j = j + 1;
            }
            if j == t.len() {
                proof {
                    lemma_line_events_end(text, start as int);
                }
                let rest = slice_chars(t.as_slice(), start, t.len());
                assert(rest@ == text.skip(start as int));
                self.tail = rest;
                assert(events@ + Seq::<(u64, u64)>::empty() == events@);
                assert(self.stderr@ + Seq::<char>::empty() == self.stderr@);
                break;
            }
            proof {
                lemma_line_events_step(text, start as int, j as int);
            }
            let ghost rest = line_events(text.skip(j + 1));
            let line = slice_chars(t.as_slice(), start, j);
            let ls = string_from_chars(line.as_slice());
            match parse_progress(ls.as_str()) {
                Some(x) => {
                    let ghost before = events@;
                    events.push(x);
                    assert(events@ + rest.0 == before + (seq![x] + rest.0));
                },
                None => {
                    if !is_blank(line.as_slice()) {
                        let ghost before = self.stderr@;
                        let n = line.len();
                        for m in 0..n
                            invariant
                                n == line@.len(),
                                self.stderr@ == before + line@.take(m as int),
                        {
                            self.stderr.push(line[m]);
                            assert(line@.take(m + 1) == line@.take(m as int).push(line@[m as int]));
                        }
                        assert(line@.take(line@.len() as int) == line@);
                        self.stderr.push('\n');
                        assert(self.stderr@ + rest.1 == before + (line@ + "\n"@ + rest.1)) by {
                            reveal_strlit("\n");
                        }
                    }
                },
            }
            start = j + 1;
        }
        events
    }

    /// After the end of the output: an unfinished last line that is not
    /// blank reports progress when, trimmed, it is a progress line, and
    /// joins the error text as it is otherwise.
    pub fn finish(&mut self) -> (r: Option<(u64, u64)>)
        ensures
            trim_seq(old(self).tail@).len() == 0 ==> r is None && final(self).stderr@ == old(self).stderr@,
            trim_seq(old(self).tail@).len() > 0 ==> r == progress_fields(trim_seq(old(self).tail@))
                && final(self).stderr@ == (if r is Some {
                    old(self).stderr@
                } else {
                    old(self).stderr@ + old(self).tail@
                }),
    {
        if is_blank(self.tail.as_slice()) {
            return None;
        }
        let t = trim_chars(self.tail.as_slice());
        let ts = string_from_chars(t.as_slice());
        let r = parse_progress(ts.as_str());
        if r.is_none() {
            let ghost before = self.stderr@;
            let n = self.tail.len();
            for m in 0..n
                invariant
                    n == self.tail@.len(),
                    self.tail@ == old(self).tail@,
                    self.stderr@ == before + self.tail@.take(m as int),
            {
                let ch = self.tail[m];
                self.stderr.push(ch);
                assert(self.tail@.take(m + 1) == self.tail@.take(m as int).push(self.tail@[m as int]));
            }
            assert(self.tail@.take(self.tail@.len() as int) == self.tail@);
        }
        r
    }

    /// The error for a scan that exited with a non-zero status.
    pub fn scan_failure(&self, status: i32) -> (r: Option<String>)
        ensures
            match r {
                Some(m) => command_failure_text("SSH scan"@, status, self.stderr@) == Some(m@),
                None => command_failure_text("SSH scan"@, status, self.stderr@) is None,
            },
    {
        let s = string_from_chars(self.stderr.as_slice());
        command_failure("SSH scan", status, s.as_str())
    }
}

// ---------------------------------------------------------------------
// Saved connections
// ---------------------------------------------------------------------

pub open spec fn has_connection(s: Seq<ConnectionView>, id: Seq<char>) -> bool {
    exists|k: int| 0 <= k < s.len() && s[k].id == id
}

/// The position of the first connection with this id.
pub open spec fn first_connection(s: Seq<ConnectionView>, id: Seq<char>) -> int {
    choose|k: int| 0 <= k < s.len() && s[k].id == id && forall|m: int| 0 <= m < k ==> s[m].id != id
}

/// The position of the first connection with this id.
pub fn find_connection(connections: &Vec<SshConnection>, id: &str) -> (r: Result<usize, String>)
    ensures
        match r {
            Ok(k) => k < connections@.len() && connections@[k as int].id@ == id@
                && forall|m: int| 0 <= m < k ==> connections@[m].id@ != id@,
            Err(e) => !has_connection(connections_view(connections@), id@) && e@ == "SSH connection was not found"@,
        },
{
    let want = to_owned_string(id);
    for k in 0..connections.len()
        invariant
            want@ == id@,
            forall|m: int| 0 <= m < k ==> connections@[m].id@ != id@,
    {
        if connections[k].id == want {
            return Ok(k);
        }
    }
    proof {
        if has_connection(connections_view(connections@), id@) {
            let k = choose|k: int| 0 <= k < connections@.len() && connections_view(connections@)[k].id == id@;
            assert(connections@[k].id@ == id@);
        }
    }
    Err(to_owned_string("SSH connection was not found"))
}

/// The secrets kept for a connection.
#[derive(Clone, Copy, PartialEq, Eq, Structural, Debug)]
pub enum SecretKind {
    Password,
    PrivateKey,
    KeyPassphrase,
}

/// One change to the stored secrets, in the order they are made.
#[derive(Debug)]
pub enum SecretOp {
    Store(SecretKind, String),
    /// Store the private key read from this file, after
    /// `check_private_key` accepts it.
    StoreKeyFile(String),
    Delete(SecretKind),
}

pub ghost enum SecretOpView {
    Store(SecretKind, Seq<char>),
    StoreKeyFile(Seq<char>),
    Delete(SecretKind),
}

pub open spec fn op_view(o: SecretOp) -> SecretOpView {
    match o {
        SecretOp::Store(k, v) => SecretOpView::Store(k, v@),
        SecretOp::StoreKeyFile(p) => SecretOpView::StoreKeyFile(p@),
        SecretOp::Delete(k) => SecretOpView::Delete(k),
    }
}

/// What saving a connection does to its secrets: a password connection
/// needs a password unless it had one, and stores a new one; a key
/// connection needs a key file unless it had a key, stores a new one with
/// its passphrase (or drops the old passphrase), and drops the password.
pub open spec fn secret_plan(input: SshConnectionInput, had_password: bool, had_key: bool) -> Result<Seq<SecretOpView>, Seq<char>> {
    match input.auth_method {
        SshAuthMethod::Password => if input.password@.len() == 0 && !had_password {
            Err("Enter the SSH password"@)
        } else {
            Ok((if input.password@.len() > 0 {
                seq![SecretOpView::Store(SecretKind::Password, input.password@)]
            } else {
                Seq::empty()
            }) + seq![SecretOpView::Delete(SecretKind::PrivateKey), SecretOpView::Delete(SecretKind::KeyPassphrase)])
        },
        SshAuthMethod::Key => if input.private_key_path@.len() == 0 && !had_key {
            Err("Choose an SSH private key"@)
        } else {
            Ok((if input.private_key_path@.len() > 0 {
                seq![SecretOpView::StoreKeyFile(input.private_key_path@)] + if input.key_passphrase@.len() == 0 {
                    seq![SecretOpView::Delete(SecretKind::KeyPassphrase)]
                } else {
                    seq![SecretOpView::Store(SecretKind::KeyPassphrase, input.key_passphrase@)]
                }
            } else if input.key_passphrase@.len() > 0 {
                seq![SecretOpView::Store(SecretKind::KeyPassphrase, input.key_passphrase@)]
            } else {
                Seq::empty()
            }) + seq![SecretOpView::Delete(SecretKind::Password)])
        },
    }
}

/// What saving a connection does: the secrets to change, in order, the
/// saved connection and the new list.
#[derive(Debug)]
pub struct SavePlan {
    pub secrets: Vec<SecretOp>,
    pub connection: SshConnection,
    pub connections: Vec<SshConnection>,
}

/// The connection that the form saves, given its id and the verified key.
pub open spec fn saved_connection(input: SshConnectionInput, id: Seq<char>, host_key: Seq<char>) -> ConnectionView {
    let host = trim_seq(input.host@);
    ConnectionView {
        id,
        name: if trim_seq(input.name@).len() == 0 { host } else { trim_seq(input.name@) },
        host,
        port: input.port,
        path: trim_seq(input.path@),
        auth_method: input.auth_method,
        trusted_host_key: host_key,
        has_private_key: input.auth_method == SshAuthMethod::Key,
        storage_usage: None,
    }
}

fn secret_ops(input: &SshConnectionInput, had_password: bool, had_key: bool) -> (r: Result<Vec<SecretOp>, String>)
    ensures
        match r {
            Ok(v) => secret_plan(*input, had_password, had_key) == Ok::<Seq<SecretOpView>, Seq<char>>(v@.map_values(|o: SecretOp| op_view(o))),
            Err(e) => secret_plan(*input, had_password, had_key) == Err::<Seq<SecretOpView>, Seq<char>>(e@),
        },
{
    let mut v: Vec<SecretOp> = Vec::new();
    let ghost plan = secret_plan(*input, had_password, had_key);
    match input.auth_method {
        SshAuthMethod::Password => {
            let empty = input.password.as_str().is_empty();
            if empty && !had_password {
                return Err(to_owned_string("Enter the SSH password"));
            }
            if !empty {
                v.push(SecretOp::Store(SecretKind::Password, input.password.clone()));
            }
            v.push(SecretOp::Delete(SecretKind::PrivateKey));
            v.push(SecretOp::Delete(SecretKind::KeyPassphrase));
            if !empty {
                assert(v@.map_values(|o: SecretOp| op_view(o)) =~= seq![
                    SecretOpView::Store(SecretKind::Password, input.password@),
                    SecretOpView::Delete(SecretKind::PrivateKey),
                    SecretOpView::Delete(SecretKind::KeyPassphrase),
                ]);
                assert(seq![SecretOpView::Store(SecretKind::Password, input.password@)] + seq![
                    SecretOpView::Delete(SecretKind::PrivateKey),
                    SecretOpView::Delete(SecretKind::KeyPassphrase),
                ] =~= v@.map_values(|o: SecretOp| op_view(o)));
            } else {
                assert(v@.map_values(|o: SecretOp| op_view(o)) =~= seq![
                    SecretOpView::Delete(SecretKind::PrivateKey),
                    SecretOpView::Delete(SecretKind::KeyPassphrase),
                ]);
                assert(Seq::<SecretOpView>::empty() + seq![
                    SecretOpView::Delete(SecretKind::PrivateKey),
                    SecretOpView::Delete(SecretKind::KeyPassphrase),
                ] =~= v@.map_values(|o: SecretOp| op_view(o)));
            }
            assert(plan == Ok::<Seq<SecretOpView>, Seq<char>>(v@.map_values(|o: SecretOp| op_view(o))));
        },
        SshAuthMethod::Key => {
            let no_file = input.private_key_path.as_str().is_empty();
            let no_passphrase = input.key_passphrase.as_str().is_empty();
            if no_file && !had_key {
                return Err(to_owned_string("Choose an SSH private key"));
            }
            if !no_file {
                v.push(SecretOp::StoreKeyFile(input.private_key_path.clone()));
                if no_passphrase {
                    v.push(SecretOp::Delete(SecretKind::KeyPassphrase));
                } else {
                    v.push(SecretOp::Store(SecretKind::KeyPassphrase, input.key_passphrase.clone()));
                }
            } else if !no_passphrase {
                v.push(SecretOp::Store(SecretKind::KeyPassphrase, input.key_passphrase.clone()));
            }
            v.push(SecretOp::Delete(SecretKind::Password));
            if !no_file {
                if no_passphrase {
                    assert(v@.map_values(|o: SecretOp| op_view(o)) =~= seq![
                        SecretOpView::StoreKeyFile(input.private_key_path@),
                        SecretOpView::Delete(SecretKind::KeyPassphrase),
                        SecretOpView::Delete(SecretKind::Password),
                    ]);
                    assert((seq![SecretOpView::StoreKeyFile(input.private_key_path@)] + seq![
                        SecretOpView::Delete(SecretKind::KeyPassphrase),
                    ]) + seq![SecretOpView::Delete(SecretKind::Password)] =~= v@.map_values(|o: SecretOp| op_view(o)));
                } else {
                    assert(v@.map_values(|o: SecretOp| op_view(o)) =~= seq![
                        SecretOpView::StoreKeyFile(input.private_key_path@),
                        SecretOpView::Store(SecretKind::KeyPassphrase, input.key_passphrase@),
                        SecretOpView::Delete(SecretKind::Password),
                    ]);
                    assert((seq![SecretOpView::StoreKeyFile(input.private_key_path@)] + seq![
                        SecretOpView::Store(SecretKind::KeyPassphrase, input.key_passphrase@),
                    ]) + seq![SecretOpView::Delete(SecretKind::Password)] =~= v@.map_values(|o: SecretOp| op_view(o)));
                }
            } else if !no_passphrase {
                assert(v@.map_values(|o: SecretOp| op_view(o)) =~= seq![
                    SecretOpView::Store(SecretKind::KeyPassphrase, input.key_passphrase@),
                    SecretOpView::Delete(SecretKind::Password),
                ]);
                assert(seq![SecretOpView::Store(SecretKind::KeyPassphrase, input.key_passphrase@)] + seq![
                    SecretOpView::Delete(SecretKind::Password),
                ] =~= v@.map_values(|o: SecretOp| op_view(o)));
            } else {
                assert(v@.map_values(|o: SecretOp| op_view(o)) =~= seq![SecretOpView::Delete(SecretKind::Password)]);
                assert(Seq::<SecretOpView>::empty() + seq![SecretOpView::Delete(SecretKind::Password)] =~= v@.map_values(
                    |o: SecretOp| op_view(o),
                ));
            }
            assert(plan == Ok::<Seq<SecretOpView>, Seq<char>>(v@.map_values(|o: SecretOp| op_view(o))));
        },
    }
    Ok(v)
}

/// Plans the saving of a checked form whose host key was verified: an id
/// must name a saved connection, which keeps its id and place; a new one
/// takes the id `ssh-` and the stamp in hexadecimal.
pub fn plan_save_connection(input: &SshConnectionInput, host_key: &str, connections: &Vec<SshConnection>, stamp: u128) -> (r: Result<SavePlan, String>)
    ensures
        match input.id {
            Some(id) => if !has_connection(connections_view(connections@), id@) {
                r matches Err(e) && e@ == "SSH connection was not found"@
            } else {
                let k = first_connection(connections_view(connections@), id@);
                let old_c = connections@[k];
                match secret_plan(*input, old_c.auth_method == SshAuthMethod::Password, old_c.has_private_key) {
                    Err(m) => r matches Err(e) && e@ == m,
                    Ok(ops) => r matches Ok(plan) && plan.secrets@.map_values(|o: SecretOp| op_view(o)) == ops
                        && plan.connection@ == saved_connection(*input, old_c.id@, host_key@)
                        && connections_view(plan.connections@) == connections_view(connections@).update(k, plan.connection@),
                }
            },
            None => match secret_plan(*input, false, false) {
                Err(m) => r matches Err(e) && e@ == m,
                Ok(ops) => r matches Ok(plan) && plan.secrets@.map_values(|o: SecretOp| op_view(o)) == ops
                    && plan.connection@ == saved_connection(*input, "ssh-"@ + crate::ssh::hex_seq(stamp as nat), host_key@)
                    && connections_view(plan.connections@) == connections_view(connections@).push(plan.connection@),
            },
        },
{
    let existing: Option<usize> = match &input.id {
        Some(id) => {
            let k = find_connection(connections, id.as_str())?;
            proof {
                let s = connections_view(connections@);
                assert(s[k as int].id == id@);
                assert(forall|m: int| 0 <= m < k ==> s[m].id != id@);
                let c = first_connection(s, id@);
                if c < k {
                } else if c > k {
                    assert(s[k as int].id != id@);
                }
                assert(c == k as int);
            }
            Some(k)
        },
        None => None,
    };
    let (had_password, had_key) = match existing {
        Some(k) => (connections[k].auth_method == SshAuthMethod::Password, connections[k].has_private_key),
        None => (false, false),
    };
    let secrets = secret_ops(input, had_password, had_key)?;
    let id = match existing {
        Some(k) => connections[k].id.clone(),
        None => crate::ssh::new_connection_id(stamp),
    };
    let hc = chars_of(input.host.as_str());
    let host = string_from_chars(trim_chars(hc.as_slice()).as_slice());
    let nc = chars_of(input.name.as_str());
    let name_t = trim_chars(nc.as_slice());
    let name = if name_t.len() == 0 {
        host.clone()
    } else {
        string_from_chars(name_t.as_slice())
    };
    let pc = chars_of(input.path.as_str());
    let path = string_from_chars(trim_chars(pc.as_slice()).as_slice());
    let connection = SshConnection {
        id,
        name,
        host,
        port: input.port,
        path,
        auth_method: input.auth_method,
        trusted_host_key: to_owned_string(host_key),
        has_private_key: input.auth_method == SshAuthMethod::Key,
        storage_usage: None,
    };
    let mut list: Vec<SshConnection> = Vec::new();
    for m in 0..connections.len()
        invariant
            connections_view(list@) == connections_view(connections@).take(m as int),
    {
        let ghost before = connections_view(list@);
        list.push(connections[m].duplicate());
        assert(connections_view(list@) == before.push(connections@[m as int]@));
        assert(connections_view(connections@).take(m + 1) == connections_view(connections@).take(m as int).push(connections@[m as int]@));
    }
    assert(connections_view(connections@).take(connections@.len() as int) == connections_view(connections@));
    let ghost base = connections_view(list@);
    match existing {
        Some(k) => {
            list.set(k, connection.duplicate());
            assert(connections_view(list@) == base.update(k as int, connection@));
        },
        None => {
            list.push(connection.duplicate());
            assert(connections_view(list@) == base.push(connection@));
        },
    }
    Ok(SavePlan { secrets, connection, connections: list })
}

/// Forgets a connection.
pub fn remove_connection(connections: &mut Vec<SshConnection>, connection_id: &str)
    ensures
        connections_view(final(connections)@) == connections_view(old(connections)@).filter(
            |c: ConnectionView| c.id != connection_id@,
        ),
{
    let ghost s = connections_view(connections@);
    let want = to_owned_string(connection_id);
    let mut out: Vec<SshConnection> = Vec::new();
    for k in 0..connections.len()
        invariant
            s == connections_view(connections@),
            want@ == connection_id@,
            connections_view(out@) == s.take(k as int).filter(|c: ConnectionView| c.id != connection_id@),
    {
        proof {
            reveal_with_fuel(Seq::<_>::filter, 1);
            assert(s.take(k + 1).drop_last() == s.take(k as int));
            assert(s.take(k + 1).last() == connections@[k as int]@);
        }
        if !(connections[k].id == want) {
            let ghost before = connections_view(out@);
            out.push(connections[k].duplicate());
            assert(connections_view(out@) == before.push(connections@[k as int]@));
        }
    }
    assert(s.take(connections.len() as int) == s);
    *connections = out;
}

/// Records the storage usage of a connection, if it is still saved; says
/// whether it was.
pub fn set_storage_usage(connections: &mut Vec<SshConnection>, connection_id: &str, usage: SshStorageUsage) -> (r: bool)
    ensures
        r == has_connection(connections_view(old(connections)@), connection_id@),
        r ==> connections_view(final(connections)@) == connections_view(old(connections)@).update(
            first_connection(connections_view(old(connections)@), connection_id@),
            ConnectionView {
                storage_usage: Some(usage),
                ..old(connections)@[first_connection(connections_view(old(connections)@), connection_id@)]@
            },
        ),
        !r ==> final(connections)@ == old(connections)@,
{
    match find_connection(connections, connection_id) {
        Err(_) => false,
        Ok(k) => {
            let ghost s = connections_view(connections@);
            proof {
                let c = first_connection(s, connection_id@);
                if c < k {
                } else if c > k {
                    assert(s[k as int].id != connection_id@);
                }
                assert(c == k as int);
            }
            let mut c = connections[k].duplicate();
            c.storage_usage = Some(usage);
            connections.set(k, c);
            assert(connections_view(connections@) == s.update(k as int, ConnectionView { storage_usage: Some(usage), ..s[k as int] }));
            true
        },
    }
}

// ---------------------------------------------------------------------
// Remote commands
// ---------------------------------------------------------------------

/// The command that deletes items below the remote path; the ids travel
/// as a JSON list.
pub fn delete_command(path: &str, item_ids: &Vec<String>) -> (r: Result<String, String>)
    ensures
        r matches Ok(c) && c@ == python_command(DELETE_SCRIPT@, seq![path@, spec_json_string_array(strings_view(item_ids@))]),
{
    let list = crate::external::json_string_array(item_ids)?;
    let mut c = to_owned_string("python3 -c ");
    push_str(&mut c, shell_quote(DELETE_SCRIPT).as_str());
    push_str(&mut c, " ");
    push_str(&mut c, shell_quote(path).as_str());
    push_str(&mut c, " ");
    push_str(&mut c, shell_quote(list.as_str()).as_str());
    let ghost a = seq![path@, spec_json_string_array(strings_view(item_ids@))];
    assert(a.drop_last() == seq![path@]);
    assert(a.drop_last().drop_last() == Seq::<Seq<char>>::empty());
    proof {
        reveal_with_fuel(python_command, 3);
    }
    Ok(c)
}

/// The command that scans the remote path.
pub fn scan_command(path: &str, name: &str, host: &str) -> (r: String)
    ensures
        r@ == python_command(SCAN_SCRIPT@, seq![path@, scan_label(name@, host@)]),
{
    let mut label = to_owned_string(name);
    push_str(&mut label, " (");
    push_str(&mut label, host);
    push_str(&mut label, ")");
    let mut c = to_owned_string("python3 -c ");
    push_str(&mut c, shell_quote(SCAN_SCRIPT).as_str());
    push_str(&mut c, " ");
    push_str(&mut c, shell_quote(path).as_str());
    push_str(&mut c, " ");
    push_str(&mut c, shell_quote(label.as_str()).as_str());
    let ghost a = seq![path@, scan_label(name@, host@)];
    assert(a.drop_last() == seq![path@]);
    assert(a.drop_last().drop_last() == Seq::<Seq<char>>::empty());
    proof {
        reveal_with_fuel(python_command, 3);
    }
    c
}

// ---------------------------------------------------------------------
// Scans in progress
// ---------------------------------------------------------------------

/// Registers a scan of a connection: `true` when a new scan should start,
/// `false` when one is already running.
pub fn start_scan(scans: &mut ScanTable, connection_id: &str) -> (r: bool)
    requires
        old(scans).wf(),
    ensures
        final(scans).wf(),
        r == old(scans).state_of(connection_id@) is None,
        final(scans).state_of(connection_id@) == crate::scan_table::begun_state(old(scans).state_of(connection_id@)),
        forall|other: Seq<char>| other != connection_id@ ==> #[trigger] final(scans).state_of(other) == old(scans).state_of(other),
{
    scans.begin(connection_id).is_none()
}

/// Asks the scan of a connection to stop, if one is running.
pub fn stop_scan(scans: &mut ScanTable, connection_id: &str)
    requires
        old(scans).wf(),
    ensures
        final(scans).wf(),
        final(scans).state_of(connection_id@) == crate::scan_table::cancelled_state(old(scans).state_of(connection_id@)),
        forall|other: Seq<char>| other != connection_id@ ==> #[trigger] final(scans).state_of(other) == old(scans).state_of(other),
{
    scans.cancel(connection_id);
}

} // verus!
