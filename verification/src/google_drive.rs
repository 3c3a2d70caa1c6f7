//! Google Drive: accounts, the cache of files, the tree that a scan
//! reports, and the decisions that the scan, trash and sign-in loops take.

use vstd::prelude::*;
use crate::cloud_items::{CachedItem, CloudItems, ItemView, copy_opt_string, copy_strings, insert_item, remove_item, without_subtree};
use crate::cloud_tree::{CloudTree, LinkRule, nodes_view, sort_desc, sum_sizes, top_nodes, build_tree};
use crate::external::{json_bool_at, json_inspect, spec_json_bool_at, spec_json_inspect, spec_status_text, spec_url_with_segments, spec_url_with_segments_query, status_text, url_with_segments, url_with_segments_query};
use crate::oauth::{CallbackReply, OAuthCancellation, callback_pairs, callback_params, html_response, html_response_of, nth_word, nth_word_of, param, param_value};
use crate::scan_table::{ScanState, ScanTable};
use crate::text::{ascii_lowercase, chars_of, contains_str, eq_ignore_ascii_case, is_blank, lower_seq, parse_u64, parse_u64_seq, push_str, seq_contains, to_owned_string, trim_chars, trim_seq, string_from_chars};

verus! {

pub const API_ROOT: &'static str = "https://www.googleapis.com/drive/v3";
pub const CACHE_VERSION: &'static str = "duckdisk-google-drive-cache-v1";
pub const USER_CAP_MESSAGE: &'static str = "Google Drive sign-in is temporarily unavailable because DuckDisk has reached Google's 100-user limit. Please check for a newer DuckDisk release or try again after the app completes Google verification.";
pub const SCAN_CANCELLED_MESSAGE: &'static str = "Google Drive scan cancelled.";
pub const FOLDER_MIME_TYPE: &'static str = "application/vnd.google-apps.folder";

/// A connected Google Drive account.
#[derive(Debug)]
pub struct GoogleDriveAccount {
    pub id: String,
    pub name: String,
    pub email: String,
    pub total_space: u64,
    pub used_space: u64,
    pub available_space: u64,
}

pub ghost struct AccountView {
    pub id: Seq<char>,
    pub name: Seq<char>,
    pub email: Seq<char>,
    pub total_space: u64,
    pub used_space: u64,
    pub available_space: u64,
}

impl View for GoogleDriveAccount {
    type V = AccountView;

    open spec fn view(&self) -> AccountView {
        AccountView {
            id: self.id@,
            name: self.name@,
            email: self.email@,
            total_space: self.total_space,
            used_space: self.used_space,
            available_space: self.available_space,
        }
    }
}

pub open spec fn accounts_view(v: Seq<GoogleDriveAccount>) -> Seq<AccountView> {
    v.map_values(|a: GoogleDriveAccount| a@)
}

/// Whether Google Drive is configured, and the connected accounts.
#[derive(Debug)]
pub struct GoogleDriveState {
    pub configured: bool,
    pub accounts: Vec<GoogleDriveAccount>,
}

/// An item that could not be moved to Trash, and why.
#[derive(Debug)]
pub struct GoogleDriveDeleteFailure {
    pub item_id: String,
    pub message: String,
}

/// What a trash request achieved.
#[derive(Debug)]
pub struct GoogleDriveDeleteResult {
    pub deleted_ids: Vec<String>,
    pub failures: Vec<GoogleDriveDeleteFailure>,
}

/// The cached state of a Google Drive scan.
#[derive(Debug)]
pub struct GoogleDriveCache {
    pub version: String,
    pub account_id: String,
    pub root_id: String,
    pub page_token: String,
    pub items: CloudItems,
}

/// Drive `about` resource, as far as it is read.
#[derive(Debug)]
pub struct AboutResponse {
    pub user: GoogleUser,
    pub storage_quota: StorageQuota,
}

#[derive(Debug)]
pub struct GoogleUser {
    pub display_name: String,
    pub email_address: String,
    pub permission_id: String,
}

/// Quota figures, which Drive sends as decimal strings.
#[derive(Debug)]
pub struct StorageQuota {
    pub limit: Option<String>,
    pub usage_in_drive: Option<String>,
}

/// Drive `file` resource, as far as it is read.
#[derive(Debug)]
pub struct DriveFile {
    pub id: String,
    pub name: Option<String>,
    pub mime_type: Option<String>,
    pub size: Option<String>,
    pub quota_bytes_used: Option<String>,
    pub parents: Option<Vec<String>>,
    pub trashed: Option<bool>,
}

/// One entry of the changes feed.
#[derive(Debug)]
pub struct DriveChange {
    pub file_id: String,
    pub removed: Option<bool>,
    pub file: Option<DriveFile>,
}

// ---------------------------------------------------------------------
// Configuration and accounts
// ---------------------------------------------------------------------

/// Whether the build has a client id and a client secret, and the accounts.
pub fn get_state(client_id: &str, client_secret: &str, accounts: Vec<GoogleDriveAccount>) -> (r: GoogleDriveState)
    ensures
        r.configured == (trim_seq(client_id@).len() > 0 && trim_seq(client_secret@).len() > 0),
        r.accounts@ == accounts@,
{
    let i = chars_of(client_id);
    let s = chars_of(client_secret);
    GoogleDriveState { configured: !is_blank(i.as_slice()) && !is_blank(s.as_slice()), accounts }
}

/// A trimmed setting of the build (client id or secret), or the error
/// that a build without it gives.
pub fn required_setting(value: &str) -> (r: Result<String, String>)
    ensures
        trim_seq(value@).len() > 0 ==> (r matches Ok(v) && v@ == trim_seq(value@)),
        trim_seq(value@).len() == 0 ==> (r matches Err(e) && e@ == "Google Drive is not configured in this build."@),
{
    let c = chars_of(value);
    let t = trim_chars(c.as_slice());
    if t.len() == 0 {
        Err(to_owned_string("Google Drive is not configured in this build."))
    } else {
        Ok(string_from_chars(t.as_slice()))
    }
}

/// A quota figure: its decimal value, or 0 when it is missing or not a
/// number.
pub open spec fn quota_figure(v: Option<String>) -> u64 {
    match v {
        Some(s) => match parse_u64_seq(s@) {
            Some(n) => n,
            None => 0,
        },
        None => 0,
    }
}

fn parse_figure(v: &Option<String>) -> (r: u64)
    ensures
        r == quota_figure(*v),
{
    match v {
        Some(s) => {
            let c = chars_of(s.as_str());
            match parse_u64(c.as_slice()) {
                Some(n) => n,
                None => 0,
            }
        },
        None => 0,
    }
}

/// The account that an `about` answer describes: the permission id, the
/// user's name and address, the quota limit and usage, and what is left.
pub fn account_from_about(about: &AboutResponse) -> (r: GoogleDriveAccount)
    ensures
        r.id@ == about.user.permission_id@,
        r.name@ == about.user.display_name@,
        r.email@ == about.user.email_address@,
        r.total_space == quota_figure(about.storage_quota.limit),
        r.used_space == quota_figure(about.storage_quota.usage_in_drive),
        r.available_space == quota_figure(about.storage_quota.limit).saturating_sub(
            quota_figure(about.storage_quota.usage_in_drive),
        ),
{
    let total: u64 = parse_figure(&about.storage_quota.limit);
    let used: u64 = parse_figure(&about.storage_quota.usage_in_drive);
    GoogleDriveAccount {
        id: about.user.permission_id.clone(),
        name: about.user.display_name.clone(),
        email: about.user.email_address.clone(),
        total_space: total,
        used_space: used,
        available_space: total.saturating_sub(used),
    }
}

/// Position of the first account with this id.
pub open spec fn first_account(s: Seq<AccountView>, id: Seq<char>) -> int {
    choose|k: int| 0 <= k < s.len() && s[k].id == id && forall|m: int| 0 <= m < k ==> s[m].id != id
}

pub open spec fn has_account(s: Seq<AccountView>, id: Seq<char>) -> bool {
    exists|k: int| 0 <= k < s.len() && s[k].id == id
}

/// The account list after saving an account: the first account with the
/// same id is replaced, otherwise the account is appended.
pub open spec fn upserted(s: Seq<AccountView>, a: AccountView) -> Seq<AccountView> {
    if has_account(s, a.id) {
        s.update(first_account(s, a.id), a)
    } else {
        s.push(a)
    }
}

fn find_account(accounts: &Vec<GoogleDriveAccount>, id: &String) -> (r: Option<usize>)
    ensures
        r matches Some(k) ==> k < accounts@.len() && accounts@[k as int].id@ == id@
            && forall|m: int| 0 <= m < k ==> accounts@[m].id@ != id@,
        r is None ==> !has_account(accounts_view(accounts@), id@),
{
    for k in 0..accounts.len()
        invariant
            forall|m: int| 0 <= m < k ==> accounts@[m].id@ != id@,
    {
        if accounts[k].id.eq(id) {
            return Some(k);
        }
    }
    None
}

/// Whether an account with this id is connected.
pub fn is_connected(accounts: &Vec<GoogleDriveAccount>, account_id: &str) -> (r: bool)
    ensures
        r == has_account(accounts_view(accounts@), account_id@),
{
    let id = to_owned_string(account_id);
    match find_account(accounts, &id) {
        Some(k) => {
            assert(accounts_view(accounts@)[k as int].id == account_id@);
            true
        },
        None => false,
    }
}

/// Saves an account: replaces the first with the same id or appends it.
pub fn upsert_account(accounts: &mut Vec<GoogleDriveAccount>, account: GoogleDriveAccount)
    ensures
        accounts_view(final(accounts)@) == upserted(accounts_view(old(accounts)@), account@),
{
    let ghost s = accounts_view(accounts@);
    let ghost a = account@;
    let id = account.id.clone();
    match find_account(accounts, &id) {
        Some(k) => {
            proof {
                let c = first_account(s, a.id);
                assert(s[k as int].id == a.id);
                assert(forall|m: int| 0 <= m < k ==> s[m].id != a.id);
                assert(0 <= c < s.len() && s[c].id == a.id && forall|m: int| 0 <= m < c ==> s[m].id != a.id);
                if c < k {
                } else if c > k {
                    assert(s[k as int].id != a.id);
                }
                assert(c == k as int);
            }
            accounts.set(k, account);
            assert(accounts_view(accounts@) == s.update(k as int, a));
        },
        None => {
            accounts.push(account);
            assert(accounts_view(accounts@) == s.push(a));
        },
    }
}

/// Forgets every account with this id.
pub fn remove_account(accounts: &mut Vec<GoogleDriveAccount>, account_id: &str)
    ensures
        accounts_view(final(accounts)@) == accounts_view(old(accounts)@).filter(|a: AccountView| a.id != account_id@),
{
    let ghost s = accounts_view(accounts@);
    let id = to_owned_string(account_id);
    let mut out: Vec<GoogleDriveAccount> = Vec::new();
    let n = accounts.len();
    let mut rest: Vec<GoogleDriveAccount> = Vec::new();
    std::mem::swap(&mut rest, accounts);
    let ghost orig = rest@;
    let mut k: usize = 0;
    while k < n
        invariant
            n == orig.len(),
            k <= n,
            s == accounts_view(orig),
            id@ == account_id@,
            rest@ == orig.subrange(k as int, n as int),
            accounts_view(out@) == s.take(k as int).filter(|a: AccountView| a.id != account_id@),
        decreases n - k,
    {
        let x = rest.remove(0);
        proof {
            reveal_with_fuel(Seq::<_>::filter, 1);
            assert(s.take(k + 1).drop_last() == s.take(k as int));
            assert(s.take(k + 1).last() == x@);
        }
        if !x.id.eq(&id) {
            let ghost before = accounts_view(out@);
            out.push(x);
            assert(accounts_view(out@) == before.push(x@));
        }
        k = k + 1;
        assert(rest@ == orig.subrange(k as int, n as int));
    }
    assert(s.take(n as int) == s);
    *accounts = out;
}



// ---------------------------------------------------------------------
// Scans in progress
// ---------------------------------------------------------------------

/// Registers a scan of a connected account: `Ok(true)` when a new scan is
/// registered and should start, `Ok(false)` when one is already running.
pub fn start_scan(accounts: &Vec<GoogleDriveAccount>, scans: &mut ScanTable, account_id: &str) -> (r: Result<bool, String>)
    requires
        old(scans).wf(),
    ensures
        final(scans).wf(),
        !has_account(accounts_view(accounts@), account_id@) ==> (r matches Err(e)
            && e@ == "Google Drive account is not connected"@ && final(scans)@ == old(scans)@),
        has_account(accounts_view(accounts@), account_id@) ==> r == Ok::<bool, String>(old(scans).state_of(account_id@) is None)
            && final(scans).state_of(account_id@) == crate::scan_table::begun_state(old(scans).state_of(account_id@)),
        forall|other: Seq<char>| other != account_id@ ==> #[trigger] final(scans).state_of(other) == old(scans).state_of(other),
{
    if !is_connected(accounts, account_id) {
        return Err(to_owned_string("Google Drive account is not connected"));
    }
    match scans.begin(account_id) {
        Some(_) => Ok(false),
        None => Ok(true),
    }
}

/// Asks the scan of this account to stop, if one is running.
pub fn stop_scan(scans: &mut ScanTable, account_id: &str)
    requires
        old(scans).wf(),
    ensures
        final(scans).wf(),
        final(scans).state_of(account_id@) == crate::scan_table::cancelled_state(old(scans).state_of(account_id@)),
        forall|other: Seq<char>| other != account_id@ ==> #[trigger] final(scans).state_of(other) == old(scans).state_of(other),
{
    scans.cancel(account_id);
}

/// The cancellation message once the scan of this account was asked to
/// stop; `Ok` otherwise.
pub fn ensure_scan_active(scans: &ScanTable, account_id: &str) -> (r: Result<(), String>)
    requires
        scans.wf(),
    ensures
        r is Err <==> crate::scan_table::scan_cancelled(scans.state_of(account_id@)),
        r matches Err(e) ==> e@ == SCAN_CANCELLED_MESSAGE@,
{
    let cancelled = match scans.get(account_id) {
        Some(st) => st.cancelled,
        None => false,
    };
    if cancelled {
        Err(to_owned_string(SCAN_CANCELLED_MESSAGE))
    } else {
        Ok(())
    }
}

/// Whether a finished scan's error is reported: a cancelled scan ends
/// silently.
pub fn failure_reported(error: &str) -> (r: bool)
    ensures
        r == (error@ != SCAN_CANCELLED_MESSAGE@),
{
    let e = to_owned_string(error);
    let c = to_owned_string(SCAN_CANCELLED_MESSAGE);
    !(e == c)
}

/// The saved account that a finished scan is reported under.
pub fn account_for_result(accounts: &Vec<GoogleDriveAccount>, account_id: &str) -> (r: Result<usize, String>)
    ensures
        match r {
            Ok(k) => k < accounts@.len() && accounts@[k as int].id@ == account_id@
                && forall|m: int| 0 <= m < k ==> accounts@[m].id@ != account_id@,
            Err(e) => !has_account(accounts_view(accounts@), account_id@) && e@ == "Google Drive account metadata is missing"@,
        },
{
    let id = to_owned_string(account_id);
    match find_account(accounts, &id) {
        Some(k) => Ok(k),
        None => Err(to_owned_string("Google Drive account metadata is missing")),
    }
}

/// An incremental scan whose page token has expired falls back to a full
/// listing.
pub fn is_token_expired(message: &str) -> (r: bool)
    ensures
        r == seq_contains(message@, "410 Gone"@),
{
    let c = chars_of(message);
    contains_str(c.as_slice(), "410 Gone")
}

// ---------------------------------------------------------------------
// The cache of files
// ---------------------------------------------------------------------

pub open spec fn opt_view(o: Option<String>) -> Option<Seq<char>> {
    match o {
        Some(s) => Some(s@),
        None => None,
    }
}

/// What the cache records of a Drive file: its first parent, a missing
/// name read as "(unnamed)", the size (or else the quota used) as a
/// decimal number, 0 when missing or not a number, and whether its MIME
/// type is the folder type.
pub open spec fn file_entry(f: DriveFile) -> ItemView {
    ItemView {
        id: f.id@,
        parent_id: match f.parents {
            Some(ps) => if ps@.len() > 0 {
                Some(ps@[0]@)
            } else {
                None
            },
            None => None,
        },
        name: match f.name {
            Some(n) => n@,
            None => "(unnamed)"@,
        },
        size: quota_figure(
            match f.size {
                Some(s) => Some(s),
                None => f.quota_bytes_used,
            },
        ),
        is_folder: opt_view(f.mime_type) == Some(FOLDER_MIME_TYPE@),
    }
}

/// A Drive file is cached under its own id, its own name (a file without
/// one is called `(unnamed)`), its first parent, the size it reports (or
/// else its quota bytes, 0 where neither reads as a number), and as a
/// folder exactly when its type is the Drive folder type.
pub proof fn law_file_entry(f: DriveFile)
    ensures
        file_entry(f).id == f.id@,
        match f.name {
            Some(n) => file_entry(f).name == n@,
            None => file_entry(f).name == "(unnamed)"@,
        },
        match f.parents {
            Some(ps) => if ps@.len() > 0 {
                file_entry(f).parent_id == Some(ps@[0]@)
            } else {
                file_entry(f).parent_id is None
            },
            None => file_entry(f).parent_id is None,
        },
        match (f.size, f.quota_bytes_used) {
            (Some(t), _) => file_entry(f).size == (match parse_u64_seq(t@) {
                Some(n) => n,
                None => 0u64,
            }),
            (None, Some(t)) => file_entry(f).size == (match parse_u64_seq(t@) {
                Some(n) => n,
                None => 0u64,
            }),
            (None, None) => file_entry(f).size == 0,
        },
        file_entry(f).is_folder == (f.mime_type matches Some(m) && m@ == "application/vnd.google-apps.folder"@),
{
}

/// The cache entry of a Drive file.
pub fn cached_item(file: DriveFile) -> (r: CachedItem)
    ensures
        r@ == file_entry(file),
        r@.id == file.id@,
        match file.name {
            Some(n) => r@.name == n@,
            None => r@.name == "(unnamed)"@,
        },
        match file.parents {
            Some(ps) => if ps@.len() > 0 {
                r@.parent_id == Some(ps@[0]@)
            } else {
                r@.parent_id is None
            },
            None => r@.parent_id is None,
        },
        match (file.size, file.quota_bytes_used) {
            (Some(t), _) => r@.size == (match parse_u64_seq(t@) {
                Some(n) => n,
                None => 0u64,
            }),
            (None, Some(t)) => r@.size == (match parse_u64_seq(t@) {
                Some(n) => n,
                None => 0u64,
            }),
            (None, None) => r@.size == 0,
        },
        r@.is_folder == (file.mime_type matches Some(m) && m@ == "application/vnd.google-apps.folder"@),
{
    let ghost g = file;
    let parent_id = match file.parents {
        Some(ps) => if ps.len() > 0 {
            Some(ps[0].clone())
        } else {
            None
        },
        None => None,
    };
    let size_text = match file.size {
        Some(s) => Some(s),
        None => file.quota_bytes_used,
    };
    let size: u64 = parse_figure(&size_text);
    let is_folder = match &file.mime_type {
        Some(m) => {
            let f = to_owned_string(FOLDER_MIME_TYPE);
            *m == f
        },
        None => false,
    };
    let r = CachedItem {
        id: file.id,
        parent_id,
        name: match file.name {
            Some(n) => n,
            None => to_owned_string("(unnamed)"),
        },
        size,
        is_folder,
    };
    assert(r@ == file_entry(g));
    r
}

impl DriveFile {
    /// A copy of the file.
    pub fn duplicate(&self) -> (r: DriveFile)
        ensures
            r.id@ == self.id@,
            r.trashed == self.trashed,
            file_entry(r) == file_entry(*self),
    {
        DriveFile {
            id: self.id.clone(),
            name: copy_opt_string(&self.name),
            mime_type: copy_opt_string(&self.mime_type),
            size: copy_opt_string(&self.size),
            quota_bytes_used: copy_opt_string(&self.quota_bytes_used),
            parents: match &self.parents {
                Some(ps) => Some(copy_strings(ps)),
                None => None,
            },
            trashed: self.trashed,
        }
    }
}

/// The listing so far of a full scan, from the drive's root.
pub fn full_listing_start(root: DriveFile) -> (r: (String, CloudItems))
    ensures
        r.0@ == root.id@,
        r.1.wf(),
        r.1@ == seq![file_entry(root)],
{
    let root_id = root.id.clone();
    let mut items = CloudItems::new();
    let entry = cached_item(root);
    items.insert(entry);
    (root_id, items)
}

/// A page of a full listing stored in order: every file but the root is
/// stored under its id.
pub open spec fn list_files(s: Seq<ItemView>, root: Seq<char>, files: Seq<DriveFile>) -> Seq<ItemView>
    decreases files.len(),
{
    if files.len() == 0 {
        s
    } else {
        let prev = list_files(s, root, files.drop_last());
        if files.last().id@ == root {
            prev
        } else {
            insert_item(prev, file_entry(files.last()))
        }
    }
}

/// How many files of a page are not the root.
pub open spec fn count_listed(root: Seq<char>, files: Seq<DriveFile>) -> nat
    decreases files.len(),
{
    if files.len() == 0 {
        0
    } else {
        count_listed(root, files.drop_last()) + if files.last().id@ == root {
            0nat
        } else {
            1nat
        }
    }
}

/// What a page does to the byte count: each stored file that is not a
/// folder adds its size, saturating.
pub open spec fn listed_bytes(b: u64, root: Seq<char>, files: Seq<DriveFile>) -> u64
    decreases files.len(),
{
    if files.len() == 0 {
        b
    } else {
        let prev = listed_bytes(b, root, files.drop_last());
        let e = file_entry(files.last());
        if files.last().id@ != root && !e.is_folder {
            prev.saturating_add(e.size)
        } else {
            prev
        }
    }
}

pub proof fn lemma_count_listed_bound(root: Seq<char>, files: Seq<DriveFile>)
    ensures
        count_listed(root, files) <= files.len(),
    decreases files.len(),
{
    if files.len() > 0 {
        lemma_count_listed_bound(root, files.drop_last());
    }
}

/// Stores a page of a full listing; `count` and `total` follow the files
/// stored and their bytes.
pub fn absorb_file_page(items: &mut CloudItems, root_id: &str, files: Vec<DriveFile>, count: &mut u64, total: &mut u64)
    requires
        old(items).wf(),
        *old(count) + files@.len() <= u64::MAX,
    ensures
        final(items).wf(),
        final(items)@ == list_files(old(items)@, root_id@, files@),
        *final(count) == *old(count) + count_listed(root_id@, files@),
        *final(total) == listed_bytes(*old(total), root_id@, files@),
{
    let ghost s0 = items@;
    let ghost c0 = *count;
    let ghost t0 = *total;
    let root = to_owned_string(root_id);
    let n = files.len();
    for k in 0..n
        invariant
            n == files@.len(),
            root@ == root_id@,
            c0 + n <= u64::MAX,
            items.wf(),
            items@ == list_files(s0, root_id@, files@.take(k as int)),
            *count == c0 + count_listed(root_id@, files@.take(k as int)),
            *total == listed_bytes(t0, root_id@, files@.take(k as int)),
    {
        let f = files[k].duplicate();
        assert(files@.take(k + 1).drop_last() == files@.take(k as int));
        assert(files@.take(k + 1).last() == files@[k as int]);
        proof {
            lemma_count_listed_bound(root_id@, files@.take(k as int));
        }
        if f.id != root {
            let item = cached_item(f);
            if !item.is_folder {
                *total = (*total).saturating_add(item.size);
            }
            items.insert(item);
            *count = *count + 1;
        }
    }
    assert(files@.take(n as int) == files@);
}

/// One change of the changes feed applied to the cached items: a removed
/// file or a trashed one leaves; any other is stored under its id.
pub open spec fn apply_change(s: Seq<ItemView>, c: DriveChange) -> Seq<ItemView> {
    if c.removed == Some(true) {
        remove_item(s, c.file_id@)
    } else {
        match c.file {
            Some(f) => if f.trashed == Some(true) {
                remove_item(s, f.id@)
            } else {
                insert_item(s, file_entry(f))
            },
            None => s,
        }
    }
}

pub open spec fn apply_changes(s: Seq<ItemView>, cs: Seq<DriveChange>) -> Seq<ItemView>
    decreases cs.len(),
{
    if cs.len() == 0 {
        s
    } else {
        apply_change(apply_changes(s, cs.drop_last()), cs.last())
    }
}

/// What a page of changes does to the byte count: each stored file that
/// is not a folder adds its size, saturating.
pub open spec fn change_bytes(b: u64, cs: Seq<DriveChange>) -> u64
    decreases cs.len(),
{
    if cs.len() == 0 {
        b
    } else {
        let prev = change_bytes(b, cs.drop_last());
        let c = cs.last();
        if c.removed == Some(true) {
            prev
        } else {
            match c.file {
                Some(f) => if f.trashed != Some(true) && !file_entry(f).is_folder {
                    prev.saturating_add(file_entry(f).size)
                } else {
                    prev
                },
                None => prev,
            }
        }
    }
}

/// Applies a page of the changes feed to the cache; `count` counts every
/// change and `total` follows the bytes of the files stored.
pub fn absorb_change_page(cache: &mut GoogleDriveCache, changes: Vec<DriveChange>, count: &mut u64, total: &mut u64)
    requires
        old(cache).items.wf(),
        *old(count) + changes@.len() <= u64::MAX,
    ensures
        final(cache).items.wf(),
        final(cache).items@ == apply_changes(old(cache).items@, changes@),
        *final(count) == *old(count) + changes@.len(),
        *final(total) == change_bytes(*old(total), changes@),
        same_header(*final(cache), *old(cache)),
{
    let ghost s0 = cache.items@;
    let ghost c0 = *count;
    let ghost t0 = *total;
    let ghost start = *cache;
    let n = changes.len();
    for k in 0..n
        invariant
            n == changes@.len(),
            c0 + n <= u64::MAX,
            cache.items.wf(),
            cache.items@ == apply_changes(s0, changes@.take(k as int)),
            *count == c0 + k,
            *total == change_bytes(t0, changes@.take(k as int)),
            same_header(*cache, start),
    {
        assert(changes@.take(k + 1).drop_last() == changes@.take(k as int));
        assert(changes@.take(k + 1).last() == changes@[k as int]);
        let removed = match changes[k].removed {
            Some(b) => b,
            None => false,
        };
        if removed {
            cache.items.remove(changes[k].file_id.as_str());
        } else {
            match &changes[k].file {
                Some(f) => {
                    let trashed = match f.trashed {
                        Some(b) => b,
                        None => false,
                    };
                    if trashed {
                        cache.items.remove(f.id.as_str());
                    } else {
                        let item = cached_item(f.duplicate());
                        if !item.is_folder {
                            *total = (*total).saturating_add(item.size);
                        }
                        cache.items.insert(item);
                    }
                },
                None => {},
            }
        }
        *count = *count + 1;
    }
    assert(changes@.take(n as int) == changes@);
}

/// The end of a page of changes: `Some(token)` to read the next page;
/// otherwise the new start token, when the page has one, is kept for the
/// next scan.
pub fn change_page_end(cache: &mut GoogleDriveCache, next_page_token: Option<String>, new_start_page_token: Option<String>) -> (r: Option<String>)
    ensures
        match next_page_token {
            Some(t) => r matches Some(u) && u@ == t@ && final(cache).page_token@ == old(cache).page_token@,
            None => r is None && final(cache).page_token@ == (match new_start_page_token {
                Some(t) => t@,
                None => old(cache).page_token@,
            }),
        },
        final(cache).items == old(cache).items,
        final(cache).version@ == old(cache).version@,
        final(cache).account_id@ == old(cache).account_id@,
        final(cache).root_id@ == old(cache).root_id@,
{
    match next_page_token {
        Some(t) => Some(t),
        None => {
            match new_start_page_token {
                Some(t) => {
                    cache.page_token = t;
                },
                None => {},
            }
            None
        },
    }
}

/// The fields of the cache besides its items.
pub open spec fn same_header(a: GoogleDriveCache, b: GoogleDriveCache) -> bool {
    &&& a.version@ == b.version@
    &&& a.account_id@ == b.account_id@
    &&& a.root_id@ == b.root_id@
    &&& a.page_token@ == b.page_token@
}

/// The cache that a full listing leaves.
pub fn finished_cache(account_id: &str, root_id: String, start_page_token: String, items: CloudItems) -> (r: GoogleDriveCache)
    requires
        items.wf(),
    ensures
        r.items.wf(),
        r.version@ == CACHE_VERSION@,
        r.account_id@ == account_id@,
        r.root_id@ == root_id@,
        r.page_token@ == start_page_token@,
        r.items@ == items@,
{
    GoogleDriveCache {
        version: to_owned_string(CACHE_VERSION),
        account_id: to_owned_string(account_id),
        root_id,
        page_token: start_page_token,
        items,
    }
}

/// Whether a cache read from disk can be used for this account: it has the
/// current version, belongs to the account, and has a page token.
pub fn cache_usable(cache: &GoogleDriveCache, account_id: &str) -> (r: bool)
    ensures
        r == (cache.version@ == CACHE_VERSION@ && cache.account_id@ == account_id@ && cache.page_token@.len() > 0),
{
    let v = to_owned_string(CACHE_VERSION);
    let a = to_owned_string(account_id);
    cache.version == v && cache.account_id == a && !cache.page_token.as_str().is_empty()
}

/// Removes a cached file and everything below it.
pub fn remove_cached_subtree(cache: &mut GoogleDriveCache, root_id: &str)
    requires
        old(cache).items.wf(),
    ensures
        final(cache).items.wf(),
        final(cache).items@ == without_subtree(old(cache).items@, root_id@),
        same_header(*final(cache), *old(cache)),
{
    cache.items.remove_subtree(root_id);
}

/// Each id's subtree removed in turn.
pub open spec fn without_subtrees(s: Seq<ItemView>, ids: Seq<Seq<char>>) -> Seq<ItemView>
    decreases ids.len(),
{
    if ids.len() == 0 {
        s
    } else {
        without_subtree(without_subtrees(s, ids.drop_last()), ids.last())
    }
}

/// Forgets the trashed files, and what was below them, in the cache.
pub fn forget_deleted(cache: &mut GoogleDriveCache, deleted_ids: &Vec<String>)
    requires
        old(cache).items.wf(),
    ensures
        final(cache).items.wf(),
        final(cache).items@ == without_subtrees(old(cache).items@, deleted_ids@.map_values(|s: String| s@)),
        same_header(*final(cache), *old(cache)),
{
    let ghost ids = deleted_ids@.map_values(|s: String| s@);
    let ghost start = *cache;
    for k in 0..deleted_ids.len()
        invariant
            ids == deleted_ids@.map_values(|s: String| s@),
            cache.items.wf(),
            cache.items@ == without_subtrees(start.items@, ids.take(k as int)),
            same_header(*cache, start),
    {
        assert(ids.take(k + 1).drop_last() == ids.take(k as int));
        remove_cached_subtree(cache, deleted_ids[k].as_str());
    }
    assert(ids.take(deleted_ids.len() as int) == ids);
}

/// Below the drive root, every file hangs under its parent, or under the
/// root when its parent is not cached (files shared with the user); the
/// root itself is not listed.
pub open spec fn scan_rule() -> LinkRule {
    LinkRule { skip_root: true, orphans_to_root: true }
}

/// Whether the tree of a scan has a total size that fits in 64 bits, as
/// `build_scan_tree` needs.
pub fn scan_tree_fits(cache: &GoogleDriveCache) -> (r: bool)
    requires
        cache.items.wf(),
    ensures
        r == (sum_sizes(top_nodes(cache.items@, scan_rule(), cache.root_id@)) <= u64::MAX),
{
    let rule = LinkRule { skip_root: true, orphans_to_root: true };
    crate::cloud_tree::tree_size_fits(&cache.items, rule, cache.root_id.as_str())
}

/// The tree of a scan: "Google Drive - " and the account name, the root's
/// id, and the files below the root, largest first, with their total size.
pub fn build_scan_tree(cache: &GoogleDriveCache, account: &GoogleDriveAccount) -> (r: CloudTree)
    requires
        cache.items.wf(),
        sum_sizes(top_nodes(cache.items@, scan_rule(), cache.root_id@)) <= u64::MAX,
    ensures
        r.display_name@ == "Google Drive - "@ + account.name@,
        r.root_id@ == cache.root_id@,
        r.size == sum_sizes(top_nodes(cache.items@, scan_rule(), cache.root_id@)),
        nodes_view(r.children@) == sort_desc(top_nodes(cache.items@, scan_rule(), cache.root_id@)),
{
    let mut name = to_owned_string("Google Drive - ");
    push_str(&mut name, account.name.as_str());
    let rule = LinkRule { skip_root: true, orphans_to_root: true };
    build_tree(&cache.items, rule, cache.root_id.as_str(), name)
}


// ---------------------------------------------------------------------
// Drive requests
// ---------------------------------------------------------------------

/// The user's name, address and permission id, and the storage quota.
pub fn about_url() -> (r: String)
    ensures
        r@ == API_ROOT@ + "/about?fields=user(displayName,emailAddress,permissionId),storageQuota(limit,usageInDrive)"@,
{
    let mut u = to_owned_string(API_ROOT);
    push_str(&mut u, "/about?fields=user(displayName,emailAddress,permissionId),storageQuota(limit,usageInDrive)");
    u
}

/// The drive's root folder.
pub fn root_url() -> (r: String)
    ensures
        r@ == API_ROOT@ + "/files/root?fields=id,name,mimeType"@,
{
    let mut u = to_owned_string(API_ROOT);
    push_str(&mut u, "/files/root?fields=id,name,mimeType");
    u
}

/// The file listing.
pub fn files_url() -> (r: String)
    ensures
        r@ == API_ROOT@ + "/files"@,
{
    let mut u = to_owned_string(API_ROOT);
    push_str(&mut u, "/files");
    u
}

/// The changes feed.
pub fn changes_url() -> (r: String)
    ensures
        r@ == API_ROOT@ + "/changes"@,
{
    let mut u = to_owned_string(API_ROOT);
    push_str(&mut u, "/changes");
    u
}

/// The token that the changes feed starts from.
pub fn start_page_token_url() -> (r: String)
    ensures
        r@ == API_ROOT@ + "/changes/startPageToken"@,
{
    let mut u = to_owned_string(API_ROOT);
    push_str(&mut u, "/changes/startPageToken");
    u
}

pub open spec fn file_segments(item_id: Seq<char>) -> Seq<Seq<char>> {
    seq!["files"@, item_id]
}

/// The Drive URL of a file: `files` and the id appended to `API_ROOT` as
/// path segments, which the url crate escapes.
pub fn google_drive_item_url(item_id: &str) -> (r: Result<String, String>)
    ensures
        match r {
            Ok(u) => spec_url_with_segments(API_ROOT@, file_segments(item_id@)) == Some(u@),
            Err(e) => spec_url_with_segments(API_ROOT@, file_segments(item_id@)) is None
                && e@ == "Could not build Google Drive item URL"@,
        },
{
    let mut segments: Vec<String> = Vec::new();
    segments.push(to_owned_string("files"));
    segments.push(to_owned_string(item_id));
    assert(segments@.map_values(|s: String| s@) == file_segments(item_id@));
    match url_with_segments(API_ROOT, &segments) {
        Some(u) => Ok(u),
        None => Err(to_owned_string("Could not build Google Drive item URL")),
    }
}

pub open spec fn trash_query() -> Seq<(Seq<char>, Seq<char>)> {
    seq![("supportsAllDrives"@, "true"@), ("fields"@, "id,trashed"@)]
}

/// The URL that moves a file to Trash: the item URL with
/// `supportsAllDrives=true` and `fields=id,trashed`.
pub fn trash_url(item_id: &str) -> (r: Result<String, String>)
    ensures
        match r {
            Ok(u) => spec_url_with_segments_query(API_ROOT@, file_segments(item_id@), trash_query()) == Some(u@),
            Err(e) => spec_url_with_segments_query(API_ROOT@, file_segments(item_id@), trash_query()) is None
                && e@ == "Could not build Google Drive item URL"@,
        },
{
    let mut segments: Vec<String> = Vec::new();
    segments.push(to_owned_string("files"));
    segments.push(to_owned_string(item_id));
    assert(segments@.map_values(|s: String| s@) == file_segments(item_id@));
    let mut query: Vec<(String, String)> = Vec::new();
    query.push((to_owned_string("supportsAllDrives"), to_owned_string("true")));
    query.push((to_owned_string("fields"), to_owned_string("id,trashed")));
    assert(query@.map_values(|p: (String, String)| (p.0@, p.1@)) == trash_query());
    match url_with_segments_query(API_ROOT, &segments, &query) {
        Some(u) => Ok(u),
        None => Err(to_owned_string("Could not build Google Drive item URL")),
    }
}

/// The answers to a move to Trash that are worth retrying.
pub open spec fn retryable_delete_spec(status: u16) -> bool {
    status == 408 || status == 409 || status == 429 || status == 500 || status == 502
        || status == 503 || status == 504
}

/// Whether a failed move to Trash is worth retrying.
pub fn is_retryable_delete_status(status: u16) -> (r: bool)
    ensures
        r == retryable_delete_spec(status),
{
    status == 408 || status == 409 || status == 429 || status == 500 || status == 502
        || status == 503 || status == 504
}

/// An error text that says the sign-in was refused.
pub open spec fn is_authentication_spec(m: Seq<char>) -> bool {
    let l = lower_seq(m);
    seq_contains(l, "401 unauthorized"@) || seq_contains(l, "invalid credentials"@)
        || seq_contains(l, "invalid_grant"@)
}

/// Whether an error says that the sign-in was refused, ignoring case.
pub fn is_authentication_error(message: &str) -> (r: bool)
    ensures
        r == is_authentication_spec(message@),
{
    let c = chars_of(message);
    let l = ascii_lowercase(c.as_slice());
    contains_str(l.as_slice(), "401 unauthorized") || contains_str(l.as_slice(), "invalid credentials")
        || contains_str(l.as_slice(), "invalid_grant")
}

/// The error for a Drive answer, given the status text and what the body
/// held: the `error.message` of a JSON body, when it is not blank, follows
/// the status.
pub open spec fn google_error_text(status: Seq<char>, parsed: Result<Option<Seq<char>>, Seq<char>>) -> Seq<char> {
    match parsed {
        Ok(Some(m)) => if trim_seq(m).len() > 0 {
            "Google Drive returned "@ + status + ": "@ + m
        } else {
            "Google Drive returned "@ + status
        },
        _ => "Google Drive returned "@ + status,
    }
}

/// The error for a Drive answer, from the status text and the outcome of
/// reading the body as JSON.
pub fn google_error_from(status: &str, parsed: Result<Option<String>, String>) -> (r: String)
    ensures
        r@ == google_error_text(status@, match parsed {
            Ok(Some(m)) => Ok(Some(m@)),
            Ok(None) => Ok(None),
            Err(e) => Err(e@),
        }),
{
    let mut out = to_owned_string("Google Drive returned ");
    push_str(&mut out, status);
    match parsed {
        Ok(Some(m)) => {
            let c = chars_of(m.as_str());
            if !is_blank(c.as_slice()) {
                push_str(&mut out, ": ");
                push_str(&mut out, m.as_str());
            }
        },
        _ => {},
    }
    out
}

/// The error for a failed Drive request, with the message from the body
/// when it has one.
pub fn google_error_message(status: u16, body: &str) -> (r: String)
    requires
        100 <= status <= 999,
    ensures
        r@ == google_error_text(spec_status_text(status), spec_json_inspect(body@)),
{
    let text = status_text(status);
    let parsed = json_inspect(body);
    google_error_from(text.as_str(), parsed)
}

/// The error for a refused Drive read: the status and the whole body.
pub fn google_rejection(status: u16, body: &str) -> (r: String)
    requires
        100 <= status <= 999,
    ensures
        r@ == "Google Drive returned "@ + spec_status_text(status) + ": "@ + body@,
{
    let mut m = to_owned_string("Google Drive returned ");
    let t = status_text(status);
    push_str(&mut m, t.as_str());
    push_str(&mut m, ": ");
    push_str(&mut m, body);
    m
}

/// What to do with the answer to a move to Trash.
#[derive(Debug)]
pub enum TrashStep {
    /// Accepted: the body says whether the file is now in Trash.
    CheckBody,
    /// Try again after the delay.
    Retry { attempts: u32, delay_secs: u64 },
    /// Failed: read the body for `trash_failure`.
    Fail,
}

/// Decides on the answer to a move to Trash: 2xx is checked; the
/// retryable statuses are retried as `throttled_step` says; anything else
/// fails.
pub fn trash_step(status: u16, attempts: u32, retry_after: Option<&str>) -> (r: TrashStep)
    requires
        attempts <= crate::retry::MAX_RETRIES,
    ensures
        200 <= status <= 299 ==> r is CheckBody,
        !(200 <= status <= 299) && retryable_delete_spec(status) ==> ({
            let (go, a, d) = crate::retry::throttled_spec(attempts, match retry_after {
                Some(h) => Some(h@),
                None => None,
            });
            match r {
                TrashStep::Retry { attempts: ra, delay_secs } => go && ra == a && delay_secs == d,
                TrashStep::Fail => !go,
                _ => false,
            }
        }),
        !(200 <= status <= 299) && !retryable_delete_spec(status) ==> r is Fail,
{
    if 200 <= status && status <= 299 {
        TrashStep::CheckBody
    } else if is_retryable_delete_status(status) {
        match crate::retry::throttled_step(attempts, retry_after) {
            crate::retry::RetryStep::Retry { attempts, delay_secs } => TrashStep::Retry { attempts, delay_secs },
            crate::retry::RetryStep::GiveUp => TrashStep::Fail,
        }
    } else {
        TrashStep::Fail
    }
}

/// Whether an accepted update moved the file: its body must be JSON with
/// `trashed: true`.
pub open spec fn trash_confirmation(parsed: Result<Option<bool>, Seq<char>>) -> Result<(), Seq<char>> {
    match parsed {
        Err(e) => Err("Invalid Google Drive update response: "@ + e),
        Ok(Some(true)) => Ok(()),
        Ok(_) => Err("Google Drive accepted the update but did not move the item to Trash"@),
    }
}

pub open spec fn unit_result_view(r: Result<(), String>) -> Result<(), Seq<char>> {
    match r {
        Ok(()) => Ok(()),
        Err(e) => Err(e@),
    }
}

/// Reads the body of an accepted update.
pub fn confirm_trashed(body: &str) -> (r: Result<(), String>)
    ensures
        unit_result_view(r) == trash_confirmation(spec_json_bool_at(body@, "trashed"@)),
{
    match json_bool_at(body, "trashed") {
        Err(e) => {
            let mut m = to_owned_string("Invalid Google Drive update response: ");
            push_str(&mut m, e.as_str());
            Err(m)
        },
        Ok(Some(true)) => Ok(()),
        Ok(_) => Err(to_owned_string("Google Drive accepted the update but did not move the item to Trash")),
    }
}

/// The error for a failed move to Trash: a 403 whose message mentions
/// insufficient permissions asks to reconnect.
pub open spec fn trash_failure_text(status: u16, message: Seq<char>) -> Seq<char> {
    if status == 403 && seq_contains(lower_seq(message), "insufficient"@) {
        "Reconnect Google Drive from All Disks to grant permission to move items to Trash."@
    } else {
        message
    }
}

/// The error for a failed move to Trash.
pub fn trash_failure(status: u16, body: &str) -> (r: String)
    requires
        100 <= status <= 999,
    ensures
        r@ == trash_failure_text(status, google_error_text(spec_status_text(status), spec_json_inspect(body@))),
{
    let message = google_error_message(status, body);
    let c = chars_of(message.as_str());
    let l = ascii_lowercase(c.as_slice());
    if status == 403 && contains_str(l.as_slice(), "insufficient") {
        to_owned_string("Reconnect Google Drive from All Disks to grant permission to move items to Trash.")
    } else {
        message
    }
}

/// After a move could not be sent: retried on a connection error or a
/// timeout as `reconnect_step` says, otherwise the error to report.
pub fn trash_send_failure(attempts: u32, transient: bool, error: &str) -> (r: Result<(u32, u64), String>)
    requires
        attempts <= crate::retry::MAX_RETRIES,
    ensures
        match crate::retry::reconnect_spec(attempts, transient) {
            Some(p) => r == Ok::<(u32, u64), String>(p),
            None => r matches Err(e) && e@ == "Could not reach Google Drive while moving the item to Trash: "@ + error@,
        },
{
    match crate::retry::reconnect_step(attempts, transient) {
        Some(p) => Ok(p),
        None => {
            let mut m = to_owned_string("Could not reach Google Drive while moving the item to Trash: ");
            push_str(&mut m, error);
            Err(m)
        },
    }
}

/// A revocation fails unless Google answers with success or 400 (a token
/// that is no longer valid).
pub fn revoke_outcome(status: u16) -> (r: Result<(), String>)
    requires
        100 <= status <= 999,
    ensures
        r is Ok <==> (200 <= status <= 299 || status == 400),
        r matches Err(e) ==> e@ == "Google could not revoke DuckDisk access: "@ + spec_status_text(status),
{
    if (200 <= status && status <= 299) || status == 400 {
        Ok(())
    } else {
        let mut m = to_owned_string("Google could not revoke DuckDisk access: ");
        let t = status_text(status);
        push_str(&mut m, t.as_str());
        Err(m)
    }
}

// ---------------------------------------------------------------------
// Trash requests
// ---------------------------------------------------------------------

pub open spec fn strings_view(v: Seq<String>) -> Seq<Seq<char>> {
    v.map_values(|s: String| s@)
}

pub open spec fn failures_view(v: Seq<GoogleDriveDeleteFailure>) -> Seq<(Seq<char>, Seq<char>)> {
    v.map_values(|f: GoogleDriveDeleteFailure| (f.item_id@, f.message@))
}

/// Whether a trash request has anything to do: `Ok(false)` for an empty
/// request, which needs no account; otherwise the account must be
/// connected.
pub fn check_trash_request(accounts: &Vec<GoogleDriveAccount>, account_id: &str, item_count: usize) -> (r: Result<bool, String>)
    ensures
        item_count == 0 ==> r == Ok::<bool, String>(false),
        item_count > 0 && has_account(accounts_view(accounts@), account_id@) ==> r == Ok::<bool, String>(true),
        item_count > 0 && !has_account(accounts_view(accounts@), account_id@) ==> (r matches Err(e)
            && e@ == "Google Drive account is not connected"@),
{
    if item_count == 0 {
        return Ok(false);
    }
    if !is_connected(accounts, account_id) {
        return Err(to_owned_string("Google Drive account is not connected"));
    }
    Ok(true)
}

/// Whether a failed move should be tried once more with a renewed token.
pub fn needs_reauth(outcome: &Result<(), String>) -> (r: bool)
    ensures
        r == (outcome matches Err(e) && is_authentication_spec(e@)),
{
    match outcome {
        Ok(()) => false,
        Err(e) => is_authentication_error(e.as_str()),
    }
}

impl GoogleDriveDeleteResult {
    /// Nothing moved, nothing failed.
    pub fn new() -> (r: GoogleDriveDeleteResult)
        ensures
            r.deleted_ids@.len() == 0,
            r.failures@.len() == 0,
            (strings_view(r.deleted_ids@), failures_view(r.failures@)) == crate::onedrive::records_after(Seq::empty()),
    {
        GoogleDriveDeleteResult { deleted_ids: Vec::new(), failures: Vec::new() }
    }

    /// Records the outcome of one move: the id joins the moved ones, or a
    /// failure with the error is added.
    pub fn record(&mut self, item_id: String, outcome: Result<(), String>)
        ensures
            match outcome {
                Ok(()) => strings_view(final(self).deleted_ids@) == strings_view(old(self).deleted_ids@).push(item_id@)
                    && failures_view(final(self).failures@) == failures_view(old(self).failures@),
                Err(e) => strings_view(final(self).deleted_ids@) == strings_view(old(self).deleted_ids@)
                    && failures_view(final(self).failures@) == failures_view(old(self).failures@).push((item_id@, e@)),
            },
            (strings_view(final(self).deleted_ids@), failures_view(final(self).failures@)) == crate::onedrive::record_step(
                (strings_view(old(self).deleted_ids@), failures_view(old(self).failures@)),
                (item_id@, match outcome {
                    Ok(()) => Ok(()),
                    Err(e) => Err(e@),
                }),
            ),
    {
        let ghost d0 = strings_view(self.deleted_ids@);
        let ghost f0 = failures_view(self.failures@);
        let ghost id = item_id@;
        match outcome {
            Ok(()) => {
                self.deleted_ids.push(item_id);
                assert(strings_view(self.deleted_ids@) == d0.push(id));
            },
            Err(message) => {
                let ghost m = message@;
                self.failures.push(GoogleDriveDeleteFailure { item_id, message });
                assert(failures_view(self.failures@) == f0.push((id, m)));
            },
        }
    }
}

// ---------------------------------------------------------------------
// Sign-in
// ---------------------------------------------------------------------

/// Asks the sign-in in progress to stop.
pub fn cancel_connection(flag: &mut OAuthCancellation)
    ensures
        final(flag).cancelled,
{
    flag.cancel();
}

/// The error that ends a sign-in that was cancelled.
pub fn check_connection(flag: &OAuthCancellation) -> (r: Result<(), String>)
    ensures
        r is Ok <==> !flag.cancelled,
        r matches Err(e) ==> e@ == "Google Drive connection cancelled."@,
{
    if flag.cancelled {
        Err(to_owned_string("Google Drive connection cancelled."))
    } else {
        Ok(())
    }
}

/// The error when the browser never came back.
pub fn callback_timeout_message() -> (r: String)
    ensures
        r@ == "Google sign-in did not return to DuckDisk. If Google showed 'Sign in with Google temporarily disabled', DuckDisk has reached Google's 100-user limit. Otherwise, try again and finish the browser sign-in within two minutes."@,
{
    to_owned_string(
        "Google sign-in did not return to DuckDisk. If Google showed 'Sign in with Google temporarily disabled', DuckDisk has reached Google's 100-user limit. Otherwise, try again and finish the browser sign-in within two minutes.",
    )
}

/// Whether an error text points at Google's cap on users of an
/// unverified app.
pub open spec fn is_user_cap_spec(details: Seq<char>) -> bool {
    let l = lower_seq(details);
    seq_contains(l, "rate_limit_exceeded"@) || seq_contains(l, "temporarily disabled"@)
        || seq_contains(l, "user cap"@) || seq_contains(l, "100-user"@) || seq_contains(l, "user limit"@)
}

/// Whether an error points at Google's user cap, ignoring case.
pub fn is_user_cap_error(details: &str) -> (r: bool)
    ensures
        r == is_user_cap_spec(details@),
{
    let c = chars_of(details);
    let l = ascii_lowercase(c.as_slice());
    contains_str(l.as_slice(), "rate_limit_exceeded") || contains_str(l.as_slice(), "temporarily disabled")
        || contains_str(l.as_slice(), "user cap") || contains_str(l.as_slice(), "100-user")
        || contains_str(l.as_slice(), "user limit")
}

/// The message for an `error` returned to the sign-in callback: the user
/// cap, a refused consent, or the description (or else the error).
pub open spec fn oauth_error_text(error: Seq<char>, description: Option<Seq<char>>) -> Seq<char> {
    let details = match description {
        Some(d) => d,
        None => error,
    };
    if is_user_cap_spec(details) || is_user_cap_spec(error) {
        USER_CAP_MESSAGE@
    } else if lower_seq(error) == lower_seq("access_denied"@) {
        "Google Drive access was not granted."@
    } else {
        "Google sign-in failed: "@ + details
    }
}

/// Explains an `error` returned to the sign-in callback.
pub fn google_oauth_error_message(error: &str, description: Option<&str>) -> (r: String)
    ensures
        r@ == oauth_error_text(error@, match description {
            Some(d) => Some(d@),
            None => None,
        }),
{
    let details: &str = match description {
        Some(d) => d,
        None => error,
    };
    if is_user_cap_error(details) || is_user_cap_error(error) {
        return to_owned_string(USER_CAP_MESSAGE);
    }
    let e = chars_of(error);
    let a = chars_of("access_denied");
    if eq_ignore_ascii_case(e.as_slice(), a.as_slice()) {
        return to_owned_string("Google Drive access was not granted.");
    }
    let mut m = to_owned_string("Google sign-in failed: ");
    push_str(&mut m, details);
    m
}

/// Explains a failed exchange of the authorization code.
pub fn google_token_error_message(details: &str) -> (r: String)
    ensures
        r@ == (if is_user_cap_spec(details@) {
            USER_CAP_MESSAGE@
        } else {
            "Google sign-in failed while exchanging the authorization code: "@ + details@
        }),
{
    if is_user_cap_error(details) {
        to_owned_string(USER_CAP_MESSAGE)
    } else {
        let mut m = to_owned_string("Google sign-in failed while exchanging the authorization code: ");
        push_str(&mut m, details);
        m
    }
}

/// The page that answers the sign-in callback.
pub open spec fn callback_page(title: Seq<char>) -> Seq<char> {
    html_response(
        "<!doctype html><meta charset=\"utf-8\"><title>"@ + title
            + "</title><style>body{font:16px system-ui;background:#15181c;color:#eef1f3;display:grid;place-items:center;height:100vh;margin:0}</style><h1>"@
            + title + "</h1>"@,
    )
}

pub fn callback_page_of(title: &str) -> (r: String)
    ensures
        r@ == callback_page(title@),
{
    let mut body = to_owned_string("<!doctype html><meta charset=\"utf-8\"><title>");
    push_str(&mut body, title);
    push_str(
        &mut body,
        "</title><style>body{font:16px system-ui;background:#15181c;color:#eef1f3;display:grid;place-items:center;height:100vh;margin:0}</style><h1>",
    );
    push_str(&mut body, title);
    push_str(&mut body, "</h1>");
    html_response_of(body)
}

/// What the sign-in callback request decides, given the outcome of
/// parsing its target: the `state` must be the expected one (no page is
/// sent otherwise); an `error` parameter fails, explained by
/// `oauth_error_text`, with a page saying so; a missing `code` fails with
/// no page; the code completes the sign-in with a page saying so.
pub open spec fn callback_decision(
    target: Option<Seq<char>>,
    parsed: Result<Seq<(Seq<char>, Seq<char>)>, Seq<char>>,
    expected_state: Seq<char>,
) -> (Option<Seq<char>>, Result<Seq<char>, Seq<char>>) {
    match target {
        None => (None, Err("Invalid Google callback"@)),
        Some(_) => match parsed {
            Err(e) => (None, Err(e)),
            Ok(pairs) => if param(pairs, "state"@) != Some(expected_state) {
                (None, Err("Google sign-in state did not match"@))
            } else {
                match param(pairs, "error"@) {
                    Some(err) => (
                        Some(callback_page("Google Drive connection failed"@)),
                        Err(oauth_error_text(err, param(pairs, "error_description"@))),
                    ),
                    None => match param(pairs, "code"@) {
                        None => (None, Err("Google callback did not include a code"@)),
                        Some(code) => (Some(callback_page("Google Drive connected"@)), Ok(code)),
                    },
                }
            },
        },
    }
}

pub open spec fn reply_view(r: CallbackReply) -> (Option<Seq<char>>, Result<Seq<char>, Seq<char>>) {
    (
        match r.response {
            Some(p) => Some(p@),
            None => None,
        },
        match r.result {
            Ok(c) => Ok(c@),
            Err(e) => Err(e@),
        },
    )
}

/// Reads the browser's callback request, whose target is its second word:
/// the page to answer with, if any, and the authorization code or the
/// error.
pub fn evaluate_callback(request: &str, expected_state: &str) -> (r: CallbackReply)
    ensures
        reply_view(r) == callback_decision(
            nth_word(request@, 1),
            match nth_word(request@, 1) {
                Some(t) => callback_params("http://127.0.0.1"@, t),
                None => Err("Invalid Google callback"@),
            },
            expected_state@,
        ),
{
    let c = chars_of(request);
    let target = match nth_word_of(c.as_slice(), 1) {
        Some(t) => t,
        None => {
            return CallbackReply { response: None, result: Err(to_owned_string("Invalid Google callback")) };
        },
    };
    let pairs = match callback_pairs("http://127.0.0.1", target.as_slice()) {
        Ok(p) => p,
        Err(e) => {
            return CallbackReply { response: None, result: Err(e) };
        },
    };
    let state_ok = match param_value(&pairs, "state") {
        Some(st) => {
            let e = to_owned_string(expected_state);
            st == e
        },
        None => false,
    };
    if !state_ok {
        return CallbackReply { response: None, result: Err(to_owned_string("Google sign-in state did not match")) };
    }
    match param_value(&pairs, "error") {
        Some(err) => {
            let description = param_value(&pairs, "error_description");
            let message = match &description {
                Some(d) => google_oauth_error_message(err.as_str(), Some(d.as_str())),
                None => google_oauth_error_message(err.as_str(), None),
            };
            let page = callback_page_of("Google Drive connection failed");
            return CallbackReply { response: Some(page), result: Err(message) };
        },
        None => {},
    }
    match param_value(&pairs, "code") {
        None => CallbackReply { response: None, result: Err(to_owned_string("Google callback did not include a code")) },
        Some(code) => {
            let page = callback_page_of("Google Drive connected");
            CallbackReply { response: Some(page), result: Ok(code) }
        },
    }
}


// ---------------------------------------------------------------------
// Laws
// ---------------------------------------------------------------------

/// What the changes feed reports is what the cache then holds: a removed
/// or trashed file is gone, any other is stored as `file_entry` reads it,
/// and no other id changes.
pub proof fn law_change_applied(s: Seq<ItemView>, c: DriveChange)
    requires
        crate::cloud_items::ids_distinct(s),
    ensures
        crate::cloud_items::ids_distinct(apply_change(s, c)),
        crate::cloud_items::as_map(apply_change(s, c)) == (if c.removed == Some(true) {
            crate::cloud_items::as_map(s).remove(c.file_id@)
        } else {
            match c.file {
                Some(f) => if f.trashed == Some(true) {
                    crate::cloud_items::as_map(s).remove(f.id@)
                } else {
                    crate::cloud_items::as_map(s).insert(f.id@, file_entry(f))
                },
                None => crate::cloud_items::as_map(s),
            }
        }),
{
    if c.removed == Some(true) {
        crate::cloud_items::law_remove_item(s, c.file_id@);
    } else {
        match c.file {
            Some(f) => if f.trashed == Some(true) {
                crate::cloud_items::law_remove_item(s, f.id@);
            } else {
                crate::cloud_items::law_insert_item(s, file_entry(f));
            },
            None => {},
        }
    }
}

/// The sign-in completes only with the state that DuckDisk sent and no
/// error from the browser, and then with the code the callback carries.
pub proof fn law_code_needs_state(target: Option<Seq<char>>, parsed: Result<Seq<(Seq<char>, Seq<char>)>, Seq<char>>, expected_state: Seq<char>)
    ensures
        callback_decision(target, parsed, expected_state).1 is Ok ==> (parsed matches Ok(pairs)
            && param(pairs, "state"@) == Some(expected_state) && param(pairs, "error"@) is None
            && callback_decision(target, parsed, expected_state).1 == Ok::<Seq<char>, Seq<char>>(param(pairs, "code"@)->Some_0)),
{
}

} // verus!
