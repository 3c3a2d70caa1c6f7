//! SSH connections through the system `ssh` command: the saved
//! connections, the commands sent to the remote host, and what their
//! output says.

use vstd::prelude::*;
use crate::cloud_items::copy_opt_string;
use crate::external::{json_inspect, json_string_array, spec_json_inspect, spec_json_string_array};
use crate::oauth::{not_newline, prefix_while, lemma_prefix_while_at};
use crate::scan_table::ScanTable;
use crate::text::{chars_of, is_blank, is_whitespace, is_ws, parse_u64, parse_u64_seq, push_chars, push_str, replace_char, replace_char_seq, slice_chars, starts_with_seq, string_from_chars, to_owned_string, trim_chars, trim_seq};

verus! {

pub const SCAN_CANCELLED_MESSAGE: &'static str = "SSH scan cancelled.";
pub const PROGRESS_PREFIX: &'static str = "DUCKDISK_PROGRESS\t";

/// Reports the size of the filesystem that holds the path given as its
/// argument, as JSON.
pub const STORAGE_SCRIPT: &'static str = r#"import json, os, sys
stats = os.statvfs(sys.argv[1])
block_size = stats.f_frsize or stats.f_bsize
total = max(0, int(stats.f_blocks) * int(block_size))
available = max(0, int(stats.f_bavail) * int(block_size))
print(json.dumps({"totalSpace":total,"usedSpace":max(0,total-available),"availableSpace":available}, separators=(",",":")))"#;

/// Deletes the items (a JSON list, second argument) that lie below the
/// remote path (first argument), and reports what it did, as JSON.
pub const DELETE_SCRIPT: &'static str = r#"import json, os, stat, sys
root = os.path.realpath(sys.argv[1])
requested = json.loads(sys.argv[2])
deleted = []
failures = []
root_device = os.lstat(root).st_dev
def remove_tree(path):
    with os.scandir(path) as entries:
        for entry in entries:
            info = entry.stat(follow_symlinks=False)
            if info.st_dev != root_device:
                continue
            if stat.S_ISDIR(info.st_mode) and not stat.S_ISLNK(info.st_mode):
                remove_tree(entry.path)
            else:
                os.unlink(entry.path)
    os.rmdir(path)
for raw in requested:
    absolute = os.path.abspath(raw)
    path = os.path.join(os.path.realpath(os.path.dirname(absolute)), os.path.basename(absolute))
    try:
        inside = os.path.commonpath([root, path]) == root
    except ValueError:
        inside = False
    if not inside or path == root:
        failures.append({"itemId": raw, "message": "Refusing to delete outside the configured remote path or delete its root"})
        continue
    try:
        info = os.lstat(path)
        if info.st_dev != root_device:
            raise OSError("Item is on a different filesystem")
        if stat.S_ISDIR(info.st_mode) and not stat.S_ISLNK(info.st_mode):
            remove_tree(path)
        elif stat.S_ISREG(info.st_mode) or stat.S_ISLNK(info.st_mode):
            os.unlink(path)
        else:
            raise OSError("Refusing to delete a device or other special file")
        deleted.append(raw)
    except OSError as error:
        failures.append({"itemId": raw, "message": str(error)})
print(json.dumps({"deletedIds": deleted, "failures": failures}, separators=(",", ":")))"#;

/// Walks the remote path (first argument), reporting progress on its
/// error output, and prints the tree, named by the second argument, as
/// JSON.
pub const SCAN_SCRIPT: &'static str = r#"import json, os, stat, sys
root = os.path.abspath(sys.argv[1])
errors = 0
items = 0
total = 0
try:
    root_device = os.lstat(root).st_dev
except OSError:
    raise SystemExit("Remote path could not be read")
def progress():
    sys.stderr.write("DUCKDISK_PROGRESS\t{}\t{}\n".format(items, total))
    sys.stderr.flush()
def walk(path):
    global errors, items, total
    try:
        info = os.lstat(path)
    except OSError:
        errors += 1
        return None
    folder = stat.S_ISDIR(info.st_mode) and not stat.S_ISLNK(info.st_mode)
    regular = stat.S_ISREG(info.st_mode) and not stat.S_ISLNK(info.st_mode)
    if path != root and info.st_dev != root_device:
        return None
    if not folder and not regular:
        return None
    items += 1
    node = {"name": os.path.basename(path) or path, "cloudId": path, "isDirectory": folder, "size": 0, "children": []}
    if not folder:
        blocks = getattr(info, "st_blocks", None)
        node["size"] = max(0, int(blocks) * 512 if blocks is not None else int(info.st_size))
        total += node["size"]
        if items % 512 == 0:
            progress()
        return node
    try:
        with os.scandir(path) as entries:
            for entry in entries:
                child = walk(entry.path)
                if child is not None:
                    node["children"].append(child)
    except OSError:
        errors += 1
    node["children"].sort(key=lambda child: child["size"], reverse=True)
    node["size"] = sum(child["size"] for child in node["children"])
    if items % 512 == 0:
        progress()
    return node
tree = walk(root)
if tree is None:
    raise SystemExit("Remote path could not be read")
tree["displayName"] = sys.argv[2]
progress()
print(json.dumps({"schema-version":"duckdisk-cloud-v1","unit":"bytes","tree":tree,"remoteErrors":errors,"remoteItems":items}, separators=(",",":")))"#;

/// How a connection signs in.
#[derive(Clone, Copy, PartialEq, Eq, Structural, Debug)]
pub enum SshAuthMethod {
    Key,
    Password,
}

impl Default for SshAuthMethod {
    /// Connections saved before passwords were supported use keys.
    fn default() -> (r: SshAuthMethod)
        ensures
            r == SshAuthMethod::Key,
    {
        SshAuthMethod::Key
    }
}

/// The size of the remote filesystem, as last queried.
#[derive(Clone, Copy, Debug)]
pub struct SshStorageUsage {
    pub total_space: u64,
    pub used_space: u64,
    pub available_space: u64,
}

/// A saved SSH connection.
#[derive(Debug)]
pub struct SshConnection {
    pub id: String,
    pub name: String,
    pub host: String,
    pub port: u16,
    pub path: String,
    pub auth_method: SshAuthMethod,
    pub storage_usage: Option<SshStorageUsage>,
}

/// What the settings form sends to save a connection.
#[derive(Debug)]
pub struct SshConnectionInput {
    pub id: Option<String>,
    pub name: String,
    pub host: String,
    pub port: u16,
    pub path: String,
    pub auth_method: SshAuthMethod,
    pub password: String,
}

/// An item that could not be deleted, and why.
#[derive(Debug)]
pub struct SshDeleteFailure {
    pub item_id: String,
    pub message: String,
}

/// What a remote deletion did.
#[derive(Debug)]
pub struct SshDeleteResult {
    pub deleted_ids: Vec<String>,
    pub failures: Vec<SshDeleteFailure>,
}

pub ghost struct ConnectionView {
    pub id: Seq<char>,
    pub name: Seq<char>,
    pub host: Seq<char>,
    pub port: u16,
    pub path: Seq<char>,
    pub auth_method: SshAuthMethod,
    pub storage_usage: Option<SshStorageUsage>,
}

impl View for SshConnection {
    type V = ConnectionView;

    open spec fn view(&self) -> ConnectionView {
        ConnectionView {
            id: self.id@,
            name: self.name@,
            host: self.host@,
            port: self.port,
            path: self.path@,
            auth_method: self.auth_method,
            storage_usage: self.storage_usage,
        }
    }
}

pub open spec fn connections_view(v: Seq<SshConnection>) -> Seq<ConnectionView> {
    v.map_values(|c: SshConnection| c@)
}

impl SshConnection {
    /// A copy of the connection.
    pub fn duplicate(&self) -> (r: SshConnection)
        ensures
            r@ == self@,
    {
        SshConnection {
            id: self.id.clone(),
            name: self.name.clone(),
            host: self.host.clone(),
            port: self.port,
            path: self.path.clone(),
            auth_method: self.auth_method,
            storage_usage: self.storage_usage,
        }
    }
}

// ---------------------------------------------------------------------
// Quoting and validation
// ---------------------------------------------------------------------

/// A value quoted for the remote shell: in single quotes, each single
/// quote written as `'"'"'`.
pub open spec fn shell_quote_spec(value: Seq<char>) -> Seq<char> {
    "'"@ + replace_char_seq(value, '\'', "'\"'\"'"@) + "'"@
}

/// Quotes a value for the remote shell.
pub fn shell_quote(value: &str) -> (r: String)
    ensures
        r@ == shell_quote_spec(value@),
{
    let c = chars_of(value);
    let to = chars_of("'\"'\"'");
    let body = replace_char(c.as_slice(), '\'', to.as_slice());
    let mut out = to_owned_string("'");
    push_chars(&mut out, body.as_slice());
    push_str(&mut out, "'");
    out
}

/// A host or alias that `ssh` cannot take for an option: it does not
/// start with `-` and holds no whitespace or NUL.
pub open spec fn host_acceptable(host: Seq<char>) -> bool {
    !(host.len() > 0 && host[0] == '-') && !(exists|i: int| 0 <= i < host.len() && is_ws(host[i]))
        && !host.contains('\0')
}

/// Refuses a host that `ssh` would read as an option.
pub fn validate_ssh_host(host: &str) -> (r: Result<(), String>)
    ensures
        r is Ok <==> host_acceptable(host@),
        r matches Err(e) ==> e@ == "SSH host or alias cannot start with '-' or contain whitespace"@,
{
    let c = chars_of(host);
    let mut bad = c.len() > 0 && c[0] == '-';
    for i in 0..c.len()
        invariant
            c@ == host@,
            bad == ((c@.len() > 0 && c@[0] == '-') || (exists|k: int| 0 <= k < i && (is_ws(c@[k]) || c@[k] == '\0'))),
    {
        if is_whitespace(c[i]) || c[i] == '\0' {
            bad = true;
        }
    }
    proof {
        if !bad {
            assert(!host@.contains('\0')) by {
                if host@.contains('\0') {
                    let k = choose|k: int| 0 <= k < host@.len() && host@[k] == '\0';
                    assert(is_ws(c@[k]) || c@[k] == '\0');
                }
            }
        } else if !(c@.len() > 0 && c@[0] == '-') {
            let k = choose|k: int| 0 <= k < c@.len() && (is_ws(c@[k]) || c@[k] == '\0');
            if c@[k] == '\0' {
                assert(host@.contains('\0'));
            }
        }
    }
    if bad {
        Err(to_owned_string("SSH host or alias cannot start with '-' or contain whitespace"))
    } else {
        Ok(())
    }
}

/// A remote path must be absolute and free of NUL, line feeds and
/// carriage returns.
pub open spec fn path_error(path: Seq<char>) -> Option<Seq<char>> {
    if path.len() == 0 || path[0] != '/' {
        Some("Remote path must be an absolute path"@)
    } else if path.contains('\0') || path.contains('\n') || path.contains('\r') {
        Some("Remote path contains unsupported control characters"@)
    } else {
        None
    }
}

/// Checks a trimmed remote path.
pub fn check_remote_path(path: &[char]) -> (r: Result<(), String>)
    ensures
        match path_error(path@) {
            Some(m) => r matches Err(e) && e@ == m,
            None => r is Ok,
        },
{
    if path.len() == 0 || path[0] != '/' {
        return Err(to_owned_string("Remote path must be an absolute path"));
    }
    if crate::text::contains_char(path, '\0') || crate::text::contains_char(path, '\n')
        || crate::text::contains_char(path, '\r') {
        return Err(to_owned_string("Remote path contains unsupported control characters"));
    }
    Ok(())
}

/// The first error in the connection form, in the order the form is
/// checked: host, then path, then port.
pub open spec fn input_error(host: Seq<char>, port: u16, path: Seq<char>) -> Option<Seq<char>> {
    let h = trim_seq(host);
    let p = trim_seq(path);
    if h.len() == 0 {
        Some("Enter an SSH host or alias"@)
    } else if !host_acceptable(h) {
        Some("SSH host or alias cannot start with '-' or contain whitespace"@)
    } else if path_error(p) is Some {
        path_error(p)
    } else if port == 0 {
        Some("SSH port must be between 1 and 65535"@)
    } else {
        None
    }
}

/// Checks the connection form before anything is read or saved.
pub fn validate_connection_input(input: &SshConnectionInput) -> (r: Result<(), String>)
    ensures
        match input_error(input.host@, input.port, input.path@) {
            Some(m) => r matches Err(e) && e@ == m,
            None => r is Ok,
        },
{
    let hc = chars_of(input.host.as_str());
    let host = trim_chars(hc.as_slice());
    let pc = chars_of(input.path.as_str());
    let path = trim_chars(pc.as_slice());
    if host.len() == 0 {
        return Err(to_owned_string("Enter an SSH host or alias"));
    }
    let hs = string_from_chars(host.as_slice());
    validate_ssh_host(hs.as_str())?;
    check_remote_path(path.as_slice())?;
    if input.port == 0 {
        return Err(to_owned_string("SSH port must be between 1 and 65535"));
    }
    Ok(())
}

// ---------------------------------------------------------------------
// Progress lines
// ---------------------------------------------------------------------

pub open spec fn not_tab() -> spec_fn(char) -> bool {
    |c: char| c != '\t'
}

/// The fields of `DUCKDISK_PROGRESS<TAB>items<TAB>bytes`: the first two
/// tab-separated fields after the prefix, each a decimal number.
pub open spec fn progress_fields(line: Seq<char>) -> Option<(u64, u64)> {
    if !starts_with_seq(line, PROGRESS_PREFIX@) {
        None
    } else {
        let v = line.skip(PROGRESS_PREFIX@.len() as int);
        let a = prefix_while(v, not_tab());
        if a >= v.len() {
            None
        } else {
            let w = v.skip(a as int + 1);
            let b = prefix_while(w, not_tab());
            match (parse_u64_seq(v.take(a as int)), parse_u64_seq(w.take(b as int))) {
                (Some(x), Some(y)) => Some((x, y)),
                _ => None,
            }
        }
    }
}

fn tab_field(s: &[char], start: usize) -> (r: usize)
    requires
        start <= s@.len(),
    ensures
        start <= r <= s@.len(),
        r - start == prefix_while(s@.skip(start as int), not_tab()),
{
    let mut j: usize = start;
    while j < s.len() && s[j] != '\t'
        invariant
            start <= j <= s@.len(),
            forall|m: int| start <= m < j ==> #[trigger] s@[m] != '\t',
        decreases s.len() - j,
    {
        j = j + 1;
    }
    proof {
        assert forall|m: int| start <= m < j implies (#[trigger] not_tab()(s@[m])) by {}
        lemma_prefix_while_at(s@, not_tab(), start as int, j as int);
    }
    j
}

/// Reads a progress line of the remote scan.
pub fn parse_progress(line: &str) -> (r: Option<(u64, u64)>)
    ensures
        r == progress_fields(line@),
{
    let s = chars_of(line);
    let p = chars_of(PROGRESS_PREFIX);
    if !crate::text::starts_with(s.as_slice(), p.as_slice()) {
        return None;
    }
    let v = slice_chars(s.as_slice(), p.len(), s.len());
    assert(v@ == line@.skip(PROGRESS_PREFIX@.len() as int));
    let a = tab_field(v.as_slice(), 0);
    assert(v@.skip(0) == v@);
    if a >= v.len() {
        return None;
    }
    let w = slice_chars(v.as_slice(), a + 1, v.len());
    assert(w@ == v@.skip(a + 1));
    let b = tab_field(w.as_slice(), 0);
    assert(w@.skip(0) == w@);
    let first = slice_chars(v.as_slice(), 0, a);
    let second = slice_chars(w.as_slice(), 0, b);
    assert(first@ == v@.take(a as int));
    assert(second@ == w@.take(b as int));
    match (parse_u64(first.as_slice()), parse_u64(second.as_slice())) {
        (Some(x), Some(y)) => Some((x, y)),
        _ => None,
    }
}

/// What the remote scan wrote on its error output besides progress.
#[derive(Debug)]
pub struct StderrLog {
    pub lines: Vec<String>,
}

pub open spec fn strings_view(v: Seq<String>) -> Seq<Seq<char>> {
    v.map_values(|s: String| s@)
}

impl StderrLog {
    pub fn new() -> (r: StderrLog)
        ensures
            r.lines@.len() == 0,
    {
        StderrLog { lines: Vec::new() }
    }

    /// Takes a line of the error output: a progress line gives the counts
    /// to report; any other line that is not blank is kept.
    pub fn on_line(&mut self, line: &str) -> (r: Option<(u64, u64)>)
        ensures
            r == progress_fields(line@),
            r is Some || trim_seq(line@).len() == 0 ==> strings_view(final(self).lines@) == strings_view(old(self).lines@),
            r is None && trim_seq(line@).len() > 0 ==> strings_view(final(self).lines@) == strings_view(old(self).lines@).push(line@),
    {
        let r = parse_progress(line);
        if r.is_none() {
            let c = chars_of(line);
            if !is_blank(c.as_slice()) {
                let ghost before = strings_view(self.lines@);
                self.lines.push(to_owned_string(line));
                assert(strings_view(self.lines@) == before.push(line@));
            }
        }
        r
    }

    /// The kept lines, joined by line feeds.
    pub fn joined(&self) -> (r: String)
        ensures
            r@ == join_lines(strings_view(self.lines@)),
    {
        let ghost v = strings_view(self.lines@);
        let mut out = String::new();
        for k in 0..self.lines.len()
            invariant
                v == strings_view(self.lines@),
                out@ == join_lines(v.take(k as int)),
        {
            assert(v.take(k + 1).drop_last() == v.take(k as int));
            if k > 0 {
                push_str(&mut out, "\n");
            }
            push_str(&mut out, self.lines[k].as_str());
        }
        assert(v.take(self.lines.len() as int) == v);
        out
    }
}

/// Lines joined by line feeds (`[String]::join("\n")`).
pub open spec fn join_lines(v: Seq<Seq<char>>) -> Seq<char>
    decreases v.len(),
{
    if v.len() == 0 {
        Seq::empty()
    } else if v.len() == 1 {
        v[0]
    } else {
        join_lines(v.drop_last()) + "\n"@ + v.last()
    }
}

// ---------------------------------------------------------------------
// Saved connections
// ---------------------------------------------------------------------

/// Lower-case hexadecimal digits of a number, without leading zeros.
pub open spec fn hex_seq(n: nat) -> Seq<char>
    decreases n,
{
    if n < 16 {
        seq![hex_digit(n)]
    } else {
        hex_seq(n / 16).push(hex_digit(n % 16))
    }
}

pub open spec fn hex_digit(d: nat) -> char {
    if d < 10 {
        ((d + 48) as u32) as char
    } else {
        ((d + 87) as u32) as char
    }
}

fn hex_digits(n: u128) -> (r: Vec<char>)
    ensures
        r@ == hex_seq(n as nat),
    decreases n,
{
    let d: u128 = n % 16;
    let c: char = if d < 10 {
        ((d as u8) + 48) as char
    } else {
        ((d as u8) + 87) as char
    };
    if n < 16 {
        let mut out: Vec<char> = Vec::new();
        out.push(c);
        out
    } else {
        let mut out = hex_digits(n / 16);
        out.push(c);
        out
    }
}

/// The id of a new connection: `ssh-` and a time stamp in hexadecimal.
pub fn new_connection_id(stamp: u128) -> (r: String)
    ensures
        r@ == "ssh-"@ + hex_seq(stamp as nat),
{
    let mut s = to_owned_string("ssh-");
    let d = hex_digits(stamp);
    push_chars(&mut s, d.as_slice());
    s
}

pub open spec fn has_connection(s: Seq<ConnectionView>, id: Seq<char>) -> bool {
    exists|k: int| 0 <= k < s.len() && s[k].id == id
}

/// The position of the first connection with this id.
pub open spec fn first_connection(s: Seq<ConnectionView>, id: Seq<char>) -> int {
    choose|k: int| 0 <= k < s.len() && s[k].id == id && forall|m: int| 0 <= m < k ==> s[m].id != id
}

/// The position of the first connection with this id.
pub fn find_connection(connections: &Vec<SshConnection>, id: &str) -> (r: Result<usize, String>)
    ensures
        match r {
            Ok(k) => k < connections@.len() && connections@[k as int].id@ == id@
                && forall|m: int| 0 <= m < k ==> connections@[m].id@ != id@,
            Err(e) => !has_connection(connections_view(connections@), id@) && e@ == "SSH connection was not found"@,
        },
{
    let want = to_owned_string(id);
    for k in 0..connections.len()
        invariant
            want@ == id@,
            forall|m: int| 0 <= m < k ==> connections@[m].id@ != id@,
    {
        if connections[k].id == want {
            return Ok(k);
        }
    }
    proof {
        if has_connection(connections_view(connections@), id@) {
            let k = choose|k: int| 0 <= k < connections@.len() && connections_view(connections@)[k].id == id@;
            assert(connections@[k].id@ == id@);
        }
    }
    Err(to_owned_string("SSH connection was not found"))
}

/// What happens to the stored password when a connection is saved.
#[derive(Clone, Copy, PartialEq, Eq, Structural, Debug)]
pub enum PasswordAction {
    Keep,
    Store,
    Delete,
}

/// What saving a connection does: the saved connection, the new list,
/// what happens to the stored password, and whether an existing
/// connection was replaced (its cached result is then dropped).
#[derive(Debug)]
pub struct SavePlan {
    pub connection: SshConnection,
    pub connections: Vec<SshConnection>,
    pub password: PasswordAction,
    pub replaced: bool,
}

/// The connection that the form saves, given its id.
pub open spec fn saved_connection(input: SshConnectionInput, id: Seq<char>) -> ConnectionView {
    let host = trim_seq(input.host@);
    ConnectionView {
        id,
        name: if trim_seq(input.name@).len() == 0 { host } else { trim_seq(input.name@) },
        host,
        port: input.port,
        path: trim_seq(input.path@),
        auth_method: input.auth_method,
        storage_usage: None,
    }
}

/// The saved connection is the form as entered: the port unchanged, the
/// host and path trimmed, the sign-in method kept, the given id, and no
/// storage figures yet; its name is the trimmed name, or the host where the
/// name is blank.
pub proof fn law_saved_connection_is_the_form(input: SshConnectionInput, id: Seq<char>)
    ensures
        saved_connection(input, id).port == input.port,
        saved_connection(input, id).host == trim_seq(input.host@),
        saved_connection(input, id).path == trim_seq(input.path@),
        saved_connection(input, id).auth_method == input.auth_method,
        saved_connection(input, id).id == id,
        saved_connection(input, id).storage_usage is None,
        trim_seq(input.name@).len() > 0 ==> saved_connection(input, id).name == trim_seq(input.name@),
        trim_seq(input.name@).len() == 0 ==> saved_connection(input, id).name == trim_seq(input.host@),
{
}

/// Plans the saving of a checked form: an id must name a saved connection;
/// a password connection needs a password unless it already had one. The
/// new connection takes the id `ssh-` and the stamp in hexadecimal; an
/// edited one keeps its id and place.
pub fn plan_save_connection(input: &SshConnectionInput, connections: &Vec<SshConnection>, stamp: u128) -> (r: Result<SavePlan, String>)
    ensures
        r matches Ok(plan) ==> plan.connection.port == input.port && plan.connection.host@ == trim_seq(input.host@)
            && plan.connection.path@ == trim_seq(input.path@) && plan.connection.auth_method == input.auth_method,
        r matches Ok(plan) ==> connections_view(plan.connections@).contains(plan.connection@),
        match input.id {
            Some(id) => if !has_connection(connections_view(connections@), id@) {
                r matches Err(e) && e@ == "SSH connection was not found"@
            } else {
                let k = first_connection(connections_view(connections@), id@);
                let had_password = connections@[k].auth_method == SshAuthMethod::Password;
                if input.auth_method == SshAuthMethod::Password && input.password@.len() == 0 && !had_password {
                    r matches Err(e) && e@ == "Enter the SSH password"@
                } else {
                    r matches Ok(plan) && plan.replaced
                        && plan.connection@ == saved_connection(*input, connections@[k].id@)
                        && connections_view(plan.connections@) == connections_view(connections@).update(k, plan.connection@)
                        && plan.password == (if input.auth_method == SshAuthMethod::Password {
                            if input.password@.len() == 0 { PasswordAction::Keep } else { PasswordAction::Store }
                        } else if had_password {
                            PasswordAction::Delete
                        } else {
                            PasswordAction::Keep
                        })
                }
            },
            None => if input.auth_method == SshAuthMethod::Password && input.password@.len() == 0 {
                r matches Err(e) && e@ == "Enter the SSH password"@
            } else {
                r matches Ok(plan) && !plan.replaced
                    && plan.connection@ == saved_connection(*input, "ssh-"@ + hex_seq(stamp as nat))
                    && connections_view(plan.connections@) == connections_view(connections@).push(plan.connection@)
                    && plan.password == (if input.auth_method == SshAuthMethod::Password {
                        PasswordAction::Store
                    } else {
                        PasswordAction::Keep
                    })
            },
        },
{
    let existing: Option<usize> = match &input.id {
        Some(id) => {
            let k = find_connection(connections, id.as_str())?;
            proof {
                let s = connections_view(connections@);
                assert(s[k as int].id == id@);
                assert(forall|m: int| 0 <= m < k ==> s[m].id != id@);
                let c = first_connection(s, id@);
                if c < k {
                } else if c > k {
                    assert(s[k as int].id != id@);
                }
                assert(c == k as int);
            }
            Some(k)
        },
        None => None,
    };
    let had_password = match existing {
        Some(k) => connections[k].auth_method == SshAuthMethod::Password,
        None => false,
    };
    let password_empty = input.password.as_str().is_empty();
    if input.auth_method == SshAuthMethod::Password && password_empty && !had_password {
        return Err(to_owned_string("Enter the SSH password"));
    }
    let id = match existing {
        Some(k) => connections[k].id.clone(),
        None => new_connection_id(stamp),
    };
    let hc = chars_of(input.host.as_str());
    let host = string_from_chars(trim_chars(hc.as_slice()).as_slice());
    let nc = chars_of(input.name.as_str());
    let name_t = trim_chars(nc.as_slice());
    let name = if name_t.len() == 0 {
        host.clone()
    } else {
        string_from_chars(name_t.as_slice())
    };
    let pc = chars_of(input.path.as_str());
    let path = string_from_chars(trim_chars(pc.as_slice()).as_slice());
    let connection = SshConnection {
        id,
        name,
        host,
        port: input.port,
        path,
        auth_method: input.auth_method,
        storage_usage: None,
    };
    let mut list: Vec<SshConnection> = Vec::new();
    for m in 0..connections.len()
        invariant
            connections_view(list@) == connections_view(connections@).take(m as int),
    {
        let ghost before = connections_view(list@);
        list.push(connections[m].duplicate());
        assert(connections_view(list@) == before.push(connections@[m as int]@));
        assert(connections_view(connections@).take(m + 1) == connections_view(connections@).take(m as int).push(connections@[m as int]@));
    }
    assert(connections_view(connections@).take(connections@.len() as int) == connections_view(connections@));
    let ghost base = connections_view(list@);
    let replaced = existing.is_some();
    match existing {
        Some(k) => {
            list.set(k, connection.duplicate());
            assert(connections_view(list@) == base.update(k as int, connection@));
            assert(connections_view(list@)[k as int] == connection@);
        },
        None => {
            list.push(connection.duplicate());
            assert(connections_view(list@) == base.push(connection@));
            assert(connections_view(list@)[base.len() as int] == connection@);
        },
    }
    let password = if input.auth_method == SshAuthMethod::Password {
        if password_empty {
            PasswordAction::Keep
        } else {
            PasswordAction::Store
        }
    } else if had_password {
        PasswordAction::Delete
    } else {
        PasswordAction::Keep
    };
    assert(connections_view(list@).contains(connection@));
    Ok(SavePlan { connection, connections: list, password, replaced })
}

/// Forgets a connection; says whether it had a stored password to delete.
pub fn remove_connection(connections: &mut Vec<SshConnection>, connection_id: &str) -> (r: bool)
    ensures
        r == (exists|k: int| 0 <= k < old(connections)@.len() && old(connections)@[k].id@ == connection_id@
            && old(connections)@[k].auth_method == SshAuthMethod::Password),
        connections_view(final(connections)@) == connections_view(old(connections)@).filter(
            |c: ConnectionView| c.id != connection_id@,
        ),
{
    let ghost s = connections_view(connections@);
    let ghost orig = connections@;
    let want = to_owned_string(connection_id);
    let mut out: Vec<SshConnection> = Vec::new();
    let mut had_password = false;
    for k in 0..connections.len()
        invariant
            s == connections_view(connections@),
            orig == connections@,
            want@ == connection_id@,
            connections_view(out@) == s.take(k as int).filter(|c: ConnectionView| c.id != connection_id@),
            had_password == (exists|m: int| 0 <= m < k && orig[m].id@ == connection_id@
                && orig[m].auth_method == SshAuthMethod::Password),
    {
        proof {
            reveal_with_fuel(Seq::<_>::filter, 1);
            assert(s.take(k + 1).drop_last() == s.take(k as int));
            assert(s.take(k + 1).last() == connections@[k as int]@);
        }
        if connections[k].id == want {
            if connections[k].auth_method == SshAuthMethod::Password {
                had_password = true;
            }
        } else {
            let ghost before = connections_view(out@);
            out.push(connections[k].duplicate());
            assert(connections_view(out@) == before.push(connections@[k as int]@));
        }
    }
    assert(s.take(connections.len() as int) == s);
    *connections = out;
    had_password
}

/// Records the storage usage of a connection.
pub fn set_storage_usage(connections: &mut Vec<SshConnection>, connection_id: &str, usage: SshStorageUsage) -> (r: Result<(), String>)
    ensures
        match r {
            Ok(()) => exists|k: int| 0 <= k < old(connections)@.len() && old(connections)@[k].id@ == connection_id@
                && (forall|m: int| 0 <= m < k ==> old(connections)@[m].id@ != connection_id@)
                && connections_view(final(connections)@) == connections_view(old(connections)@).update(
                    k,
                    ConnectionView { storage_usage: Some(usage), ..old(connections)@[k]@ },
                ),
            Err(e) => !has_connection(connections_view(old(connections)@), connection_id@)
                && e@ == "SSH connection was not found"@ && final(connections)@ == old(connections)@,
        },
{
    let k = find_connection(connections, connection_id)?;
    let ghost s = connections_view(connections@);
    let mut c = connections[k].duplicate();
    c.storage_usage = Some(usage);
    connections.set(k, c);
    assert(connections_view(connections@) == s.update(k as int, ConnectionView { storage_usage: Some(usage), ..s[k as int] }));
    Ok(())
}

// ---------------------------------------------------------------------
// Remote commands
// ---------------------------------------------------------------------

/// `python3 -c` with a script and its quoted arguments.
pub open spec fn python_command(script: Seq<char>, args: Seq<Seq<char>>) -> Seq<char>
    decreases args.len(),
{
    if args.len() == 0 {
        "python3 -c "@ + shell_quote_spec(script)
    } else {
        python_command(script, args.drop_last()) + " "@ + shell_quote_spec(args.last())
    }
}

/// The command that queries the filesystem of the remote path.
pub fn storage_command(path: &str) -> (r: String)
    ensures
        r@ == python_command(STORAGE_SCRIPT@, seq![path@]),
{
    let mut c = to_owned_string("python3 -c ");
    push_str(&mut c, shell_quote(STORAGE_SCRIPT).as_str());
    push_str(&mut c, " ");
    push_str(&mut c, shell_quote(path).as_str());
    assert(seq![path@].drop_last() == Seq::<Seq<char>>::empty());
    proof {
        reveal_with_fuel(python_command, 2);
    }
    c
}

/// The command that deletes items below the remote path; the ids travel
/// as a JSON list.
pub fn delete_command(path: &str, item_ids: &Vec<String>) -> (r: Result<String, String>)
    ensures
        r matches Ok(c) && c@ == python_command(DELETE_SCRIPT@, seq![path@, spec_json_string_array(strings_view(item_ids@))]),
{
    let list = json_string_array(item_ids)?;
    let mut c = to_owned_string("python3 -c ");
    push_str(&mut c, shell_quote(DELETE_SCRIPT).as_str());
    push_str(&mut c, " ");
    push_str(&mut c, shell_quote(path).as_str());
    push_str(&mut c, " ");
    push_str(&mut c, shell_quote(list.as_str()).as_str());
    let ghost a = seq![path@, spec_json_string_array(strings_view(item_ids@))];
    assert(a.drop_last() == seq![path@]);
    assert(a.drop_last().drop_last() == Seq::<Seq<char>>::empty());
    proof {
        reveal_with_fuel(python_command, 3);
    }
    Ok(c)
}

/// The label of a scanned tree: the connection's name and host.
pub open spec fn scan_label(name: Seq<char>, host: Seq<char>) -> Seq<char> {
    name + " ("@ + host + ")"@
}

/// The command that scans the remote path.
pub fn scan_command(path: &str, name: &str, host: &str) -> (r: String)
    ensures
        r@ == python_command(SCAN_SCRIPT@, seq![path@, scan_label(name@, host@)]),
{
    let mut label = to_owned_string(name);
    push_str(&mut label, " (");
    push_str(&mut label, host);
    push_str(&mut label, ")");
    let mut c = to_owned_string("python3 -c ");
    push_str(&mut c, shell_quote(SCAN_SCRIPT).as_str());
    push_str(&mut c, " ");
    push_str(&mut c, shell_quote(path).as_str());
    push_str(&mut c, " ");
    push_str(&mut c, shell_quote(label.as_str()).as_str());
    let ghost a = seq![path@, scan_label(name@, host@)];
    assert(a.drop_last() == seq![path@]);
    assert(a.drop_last().drop_last() == Seq::<Seq<char>>::empty());
    proof {
        reveal_with_fuel(python_command, 3);
    }
    c
}

pub open spec fn port_text(port: u16) -> Seq<char> {
    crate::text::decimal_seq(port as nat)
}

/// The options given to `ssh` before the host: a connect timeout, the
/// port, and either batch mode for keys or one password prompt.
pub open spec fn ssh_args_spec(port: u16, auth: SshAuthMethod) -> Seq<Seq<char>> {
    seq!["-o"@, "ConnectTimeout=12"@, "-p"@, port_text(port)] + match auth {
        SshAuthMethod::Key => seq!["-o"@, "BatchMode=yes"@],
        SshAuthMethod::Password => seq![
            "-o"@,
            "BatchMode=no"@,
            "-o"@,
            "NumberOfPasswordPrompts=1"@,
            "-o"@,
            "PreferredAuthentications=password,keyboard-interactive"@,
            "-o"@,
            "PubkeyAuthentication=no"@,
        ],
    }
}

/// The options given to `ssh` for a connection.
pub fn ssh_args(port: u16, auth: SshAuthMethod) -> (r: Vec<String>)
    ensures
        strings_view(r@) == ssh_args_spec(port, auth),
{
    let mut v: Vec<String> = Vec::new();
    v.push(to_owned_string("-o"));
    v.push(to_owned_string("ConnectTimeout=12"));
    v.push(to_owned_string("-p"));
    let d = crate::text::u64_to_decimal(port as u64);
    v.push(string_from_chars(d.as_slice()));
    match auth {
        SshAuthMethod::Key => {
            v.push(to_owned_string("-o"));
            v.push(to_owned_string("BatchMode=yes"));
        },
        SshAuthMethod::Password => {
            v.push(to_owned_string("-o"));
            v.push(to_owned_string("BatchMode=no"));
            v.push(to_owned_string("-o"));
            v.push(to_owned_string("NumberOfPasswordPrompts=1"));
            v.push(to_owned_string("-o"));
            v.push(to_owned_string("PreferredAuthentications=password,keyboard-interactive"));
            v.push(to_owned_string("-o"));
            v.push(to_owned_string("PubkeyAuthentication=no"));
        },
    }
    assert(strings_view(v@) == ssh_args_spec(port, auth));
    v
}

pub open spec fn pairs_view(v: Seq<(String, String)>) -> Seq<(Seq<char>, Seq<char>)> {
    v.map_values(|p: (String, String)| (p.0@, p.1@))
}

/// The environment that makes `ssh` ask DuckDisk itself for the password
/// of a connection.
pub fn askpass_env(helper: &str, connection_id: &str) -> (r: Vec<(String, String)>)
    ensures
        pairs_view(r@) == seq![
            ("SSH_ASKPASS"@, helper@),
            ("SSH_ASKPASS_REQUIRE"@, "force"@),
            ("DISPLAY"@, "duckdisk"@),
            ("DUCKDISK_SSH_ASKPASS"@, "1"@),
            ("DUCKDISK_SSH_CONNECTION_ID"@, connection_id@),
        ],
{
    let mut v: Vec<(String, String)> = Vec::new();
    v.push((to_owned_string("SSH_ASKPASS"), to_owned_string(helper)));
    v.push((to_owned_string("SSH_ASKPASS_REQUIRE"), to_owned_string("force")));
    v.push((to_owned_string("DISPLAY"), to_owned_string("duckdisk")));
    v.push((to_owned_string("DUCKDISK_SSH_ASKPASS"), to_owned_string("1")));
    v.push((to_owned_string("DUCKDISK_SSH_CONNECTION_ID"), to_owned_string(connection_id)));
    assert(pairs_view(v@) == seq![
        ("SSH_ASKPASS"@, helper@),
        ("SSH_ASKPASS_REQUIRE"@, "force"@),
        ("DISPLAY"@, "duckdisk"@),
        ("DUCKDISK_SSH_ASKPASS"@, "1"@),
        ("DUCKDISK_SSH_CONNECTION_ID"@, connection_id@),
    ]);
    v
}

/// When DuckDisk runs as the password helper: `Ok(None)` when it was not
/// asked to, the connection whose password to print, or the error when the
/// connection id is missing.
pub fn askpass_plan(helper_requested: bool, connection_id: Option<String>) -> (r: Result<Option<String>, String>)
    ensures
        !helper_requested ==> r matches Ok(None),
        helper_requested && connection_id is None ==> (r matches Err(e)
            && e@ == "SSH password helper did not receive a connection ID"@),
        helper_requested && connection_id is Some ==> (r matches Ok(Some(id)) && id@ == connection_id->Some_0@),
{
    if !helper_requested {
        return Ok(None);
    }
    match connection_id {
        Some(id) => Ok(Some(id)),
        None => Err(to_owned_string("SSH password helper did not receive a connection ID")),
    }
}

/// The error for a remote command that failed: what it wrote on its error
/// output, trimmed, or else its exit status.
pub open spec fn exit_failure_text(label: Seq<char>, status: Seq<char>, stderr: Seq<char>) -> Seq<char> {
    if trim_seq(stderr).len() == 0 {
        label + " exited with "@ + status
    } else {
        label + " failed: "@ + trim_seq(stderr)
    }
}

/// The error for a failed remote command, labelled (`SSH storage query`,
/// `SSH deletion`, `SSH scan`).
pub fn exit_failure(label: &str, status: &str, stderr: &str) -> (r: String)
    ensures
        r@ == exit_failure_text(label@, status@, stderr@),
{
    let c = chars_of(stderr);
    let t = trim_chars(c.as_slice());
    let mut m = to_owned_string(label);
    if t.len() == 0 {
        push_str(&mut m, " exited with ");
        push_str(&mut m, status);
    } else {
        push_str(&mut m, " failed: ");
        push_chars(&mut m, t.as_slice());
    }
    m
}

/// The output of a scan must be JSON.
pub fn check_scan_output(content: &str) -> (r: Result<(), String>)
    ensures
        r is Ok <==> spec_json_inspect(content@) is Ok,
        r matches Err(e) ==> spec_json_inspect(content@) matches Err(m) && e@ == "Remote scan returned invalid JSON: "@ + m,
{
    match json_inspect(content) {
        Ok(_) => Ok(()),
        Err(m) => {
            let mut e = to_owned_string("Remote scan returned invalid JSON: ");
            push_str(&mut e, m.as_str());
            Err(e)
        },
    }
}

/// A cached scan result is replayed only when it is JSON.
pub fn cached_result_usable(content: &str) -> (r: bool)
    ensures
        r == spec_json_inspect(content@) is Ok,
{
    json_inspect(content).is_ok()
}

/// The error of a save whose keychain change failed, after the saved
/// connections were put back: the keychain error alone when they were,
/// otherwise followed by why they could not be.
pub fn keychain_failure_error(error: &str, rollback: Result<(), String>) -> (r: String)
    ensures
        match rollback {
            Ok(()) => r@ == error@,
            Err(e) => r@ == error@ + ". DuckDisk also could not restore the previous SSH settings: "@ + e@,
        },
{
    match rollback {
        Ok(()) => to_owned_string(error),
        Err(e) => {
            let mut m = to_owned_string(error);
            push_str(&mut m, ". DuckDisk also could not restore the previous SSH settings: ");
            push_str(&mut m, e.as_str());
            m
        },
    }
}

/// A deletion that removed something makes the cached scan stale.
pub fn deletion_clears_cache(result: &SshDeleteResult) -> (r: bool)
    ensures
        r == (result.deleted_ids@.len() > 0),
{
    result.deleted_ids.len() > 0
}

// ---------------------------------------------------------------------
// Scans in progress
// ---------------------------------------------------------------------

/// Registers a scan of a connection: `true` when a new scan should start,
/// `false` when one is already running.
pub fn start_scan(scans: &mut ScanTable, connection_id: &str) -> (r: bool)
    requires
        old(scans).wf(),
    ensures
        final(scans).wf(),
        r == old(scans).state_of(connection_id@) is None,
        final(scans).state_of(connection_id@) == crate::scan_table::begun_state(old(scans).state_of(connection_id@)),
        forall|other: Seq<char>| other != connection_id@ ==> #[trigger] final(scans).state_of(other) == old(scans).state_of(other),
{
    scans.begin(connection_id).is_none()
}

/// Asks the scan of a connection to stop, if one is running.
pub fn stop_scan(scans: &mut ScanTable, connection_id: &str)
    requires
        old(scans).wf(),
    ensures
        final(scans).wf(),
        final(scans).state_of(connection_id@) == crate::scan_table::cancelled_state(old(scans).state_of(connection_id@)),
        forall|other: Seq<char>| other != connection_id@ ==> #[trigger] final(scans).state_of(other) == old(scans).state_of(other),
{
    scans.cancel(connection_id);
}

/// Whether the scan of a connection was asked to stop.
pub fn scan_cancelled(scans: &ScanTable, connection_id: &str) -> (r: bool)
    requires
        scans.wf(),
    ensures
        r == (scans.state_of(connection_id@) matches Some(st) && st.cancelled),
{
    match scans.get(connection_id) {
        Some(st) => st.cancelled,
        None => false,
    }
}

/// Whether a finished scan's error is reported: a cancelled scan ends
/// silently.
pub fn failure_reported(error: &str) -> (r: bool)
    ensures
        r == (error@ != SCAN_CANCELLED_MESSAGE@),
{
    let e = to_owned_string(error);
    let c = to_owned_string(SCAN_CANCELLED_MESSAGE);
    !(e == c)
}


// ---------------------------------------------------------------------
// Laws
// ---------------------------------------------------------------------

/// A progress line as the remote scan writes it reads back as the counts
/// it was written from.
pub proof fn law_progress_roundtrip(items: u64, total: u64)
    ensures
        progress_fields(PROGRESS_PREFIX@ + crate::text::decimal_seq(items as nat) + "\t"@ + crate::text::decimal_seq(
            total as nat,
        )) == Some((items, total)),
{
    reveal_strlit("\t");
    let p = PROGRESS_PREFIX@;
    let da = crate::text::decimal_seq(items as nat);
    let db = crate::text::decimal_seq(total as nat);
    crate::text::lemma_parse_decimal(items as nat);
    crate::text::lemma_parse_decimal(total as nat);
    let line = p + da + "\t"@ + db;
    assert(line.subrange(0, p.len() as int) =~= p);
    let v = line.skip(p.len() as int);
    assert(v =~= da + "\t"@ + db);
    assert forall|m: int| 0 <= m < da.len() implies (#[trigger] not_tab()(v[m])) by {
        assert(v[m] == da[m]);
        assert(crate::text::is_digit(da[m]));
    }
    assert(v[da.len() as int] == '\t');
    lemma_prefix_while_at(v, not_tab(), 0, da.len() as int);
    assert(v.skip(0) == v);
    let w = v.skip(da.len() as int + 1);
    assert(w =~= db);
    assert forall|m: int| 0 <= m < w.len() implies (#[trigger] not_tab()(w[m])) by {
        assert(crate::text::is_digit(db[m]));
    }
    lemma_prefix_while_at(w, not_tab(), 0, w.len() as int);
    assert(w.skip(0) == w);
    assert(v.take(da.len() as int) =~= da);
    assert(w.take(w.len() as int) =~= db);
}

/// A value without single quotes is quoted as is, between single quotes.
pub proof fn law_quote_plain(value: Seq<char>)
    requires
        !value.contains('\''),
    ensures
        shell_quote_spec(value) == "'"@ + value + "'"@,
    decreases value.len(),
{
    lemma_replace_absent(value);
}

proof fn lemma_replace_absent(value: Seq<char>)
    requires
        !value.contains('\''),
    ensures
        replace_char_seq(value, '\'', "'\"'\"'"@) == value,
    decreases value.len(),
{
    if value.len() > 0 {
        let d = value.drop_last();
        assert(!d.contains('\'')) by {
            if d.contains('\'') {
                let k = choose|k: int| 0 <= k < d.len() && d[k] == '\'';
                assert(value[k] == '\'');
            }
        }
        lemma_replace_absent(d);
        assert(value.last() != '\'') by {
            assert(value[value.len() - 1] == value.last());
        }
        assert(d + seq![value.last()] =~= value);
    }
}

} // verus!
