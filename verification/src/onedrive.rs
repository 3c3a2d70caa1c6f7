//! OneDrive: accounts, the delta-query cache of drive items, the tree that a
//! scan reports, and the decisions that the scan and delete loops take.

use vstd::prelude::*;
use crate::cloud_items::{CachedItem, CloudItems, ItemView, opt_string_view, insert_item, remove_item, without_subtree};
use crate::cloud_tree::{CloudNode, CloudTree, LinkRule, NodeView, item_node, node_fits, nodes_view, opt_node_view, sort_desc, sum_sizes, top_nodes, build_tree, build_subtree};
use crate::external::{json_inspect, spec_json_inspect, spec_status_text, spec_url_with_segments, status_text, url_with_segments};
use crate::scan_table::{ScanPhase, ScanState, ScanTable};
use crate::oauth::{CallbackReply, OAuthCancellation, callback_pairs, callback_params, first_line, first_line_of, html_response, html_response_of, nth_word, nth_word_of, param, param_value};
use crate::text::{ascii_lowercase, chars_of, contains_str, is_blank, lower_seq, push_str, seq_contains, to_owned_string, trim_chars, trim_seq, string_from_chars};

verus! {

pub const GRAPH_ROOT: &'static str = "https://graph.microsoft.com/v1.0";
pub const CACHE_VERSION: &'static str = "duckdisk-onedrive-cache-v1";
pub const SCAN_CANCELLED_MESSAGE: &'static str = "OneDrive scan cancelled.";
pub const CHECKPOINT_ITEM_INTERVAL: u64 = 20000;

/// A connected OneDrive account.
#[derive(Debug)]
pub struct OneDriveAccount {
    pub id: String,
    pub name: String,
    pub drive_type: String,
    pub total_space: u64,
    pub used_space: u64,
    pub available_space: u64,
}

pub ghost struct AccountView {
    pub id: Seq<char>,
    pub name: Seq<char>,
    pub drive_type: Seq<char>,
    pub total_space: u64,
    pub used_space: u64,
    pub available_space: u64,
}

impl View for OneDriveAccount {
    type V = AccountView;

    open spec fn view(&self) -> AccountView {
        AccountView {
            id: self.id@,
            name: self.name@,
            drive_type: self.drive_type@,
            total_space: self.total_space,
            used_space: self.used_space,
            available_space: self.available_space,
        }
    }
}

pub open spec fn accounts_view(v: Seq<OneDriveAccount>) -> Seq<AccountView> {
    v.map_values(|a: OneDriveAccount| a@)
}

/// Whether OneDrive is configured, and the connected accounts.
#[derive(Debug)]
pub struct OneDriveState {
    pub configured: bool,
    pub accounts: Vec<OneDriveAccount>,
}

/// An item that could not be moved to the recycle bin, and why.
#[derive(Debug)]
pub struct OneDriveDeleteFailure {
    pub item_id: String,
    pub message: String,
}

/// What a delete request achieved.
#[derive(Debug)]
pub struct OneDriveDeleteResult {
    pub deleted_ids: Vec<String>,
    pub failures: Vec<OneDriveDeleteFailure>,
}

/// Microsoft Graph `drive` resource, as far as it is read.
#[derive(Debug)]
pub struct GraphDrive {
    pub id: String,
    pub drive_type: Option<String>,
    pub owner: Option<GraphOwner>,
    pub quota: Option<GraphQuota>,
}

#[derive(Debug)]
pub struct GraphOwner {
    pub user: Option<GraphUser>,
}

#[derive(Debug)]
pub struct GraphUser {
    pub display_name: Option<String>,
}

#[derive(Debug)]
pub struct GraphQuota {
    pub total: Option<u64>,
    pub used: Option<u64>,
    pub remaining: Option<u64>,
}

/// Microsoft Graph `driveItem` resource, as far as it is read: `folder`
/// and `deleted` say whether those facets are present.
#[derive(Debug)]
pub struct GraphItem {
    pub id: String,
    pub name: Option<String>,
    pub size: Option<u64>,
    pub parent_reference: Option<ParentReference>,
    pub folder: bool,
    pub deleted: bool,
}

#[derive(Debug)]
pub struct ParentReference {
    pub id: Option<String>,
}

/// One page of a delta query.
#[derive(Debug)]
pub struct DeltaPage {
    pub value: Vec<GraphItem>,
    pub next_link: Option<String>,
    pub delta_link: Option<String>,
}

/// The cached state of a OneDrive delta scan.
#[derive(Debug)]
pub struct OneDriveCache {
    pub version: String,
    pub account_id: String,
    pub root_id: String,
    pub delta_link: String,
    pub next_link: String,
    pub checkpoint_items: u64,
    pub checkpoint_bytes: u64,
    pub items: CloudItems,
}

// ---------------------------------------------------------------------
// Configuration and accounts
// ---------------------------------------------------------------------

/// Whether the build has a OneDrive client id, and the accounts.
pub fn get_state(client_id: &str, accounts: Vec<OneDriveAccount>) -> (r: OneDriveState)
    ensures
        r.configured == (trim_seq(client_id@).len() > 0),
        r.accounts@ == accounts@,
{
    let c = chars_of(client_id);
    OneDriveState { configured: !is_blank(c.as_slice()), accounts }
}

/// The trimmed client id, or the error that a build without one gives.
pub fn required_client_id(client_id: &str) -> (r: Result<String, String>)
    ensures
        trim_seq(client_id@).len() > 0 ==> (r matches Ok(id) && id@ == trim_seq(client_id@)),
        trim_seq(client_id@).len() == 0 ==> (r matches Err(e)
            && e@ == "OneDrive is not configured in this build. Set DUCKDISK_ONEDRIVE_CLIENT_ID and rebuild."@),
{
    let c = chars_of(client_id);
    let t = trim_chars(c.as_slice());
    if t.len() == 0 {
        Err(to_owned_string("OneDrive is not configured in this build. Set DUCKDISK_ONEDRIVE_CLIENT_ID and rebuild."))
    } else {
        Ok(string_from_chars(t.as_slice()))
    }
}

pub open spec fn drive_name(drive: GraphDrive) -> Seq<char> {
    match drive.owner {
        Some(o) => match o.user {
            Some(u) => match u.display_name {
                Some(n) => n@,
                None => "Microsoft account"@,
            },
            None => "Microsoft account"@,
        },
        None => "Microsoft account"@,
    }
}

pub open spec fn quota_total(drive: GraphDrive) -> u64 {
    match drive.quota {
        Some(q) => match q.total {
            Some(t) => t,
            None => 0,
        },
        None => 0,
    }
}

pub open spec fn quota_used(drive: GraphDrive) -> u64 {
    let total = quota_total(drive);
    match drive.quota {
        Some(q) => match q.used {
            Some(u) => u,
            None => total.saturating_sub(
                match q.remaining {
                    Some(r) => r,
                    None => total,
                },
            ),
        },
        None => total.saturating_sub(total),
    }
}

pub open spec fn quota_available(drive: GraphDrive) -> u64 {
    match drive.quota {
        Some(q) => match q.remaining {
            Some(r) => r,
            None => quota_total(drive).saturating_sub(quota_used(drive)),
        },
        None => quota_total(drive).saturating_sub(quota_used(drive)),
    }
}

/// The account that a Graph `drive` describes: a missing owner name reads
/// "Microsoft account", a missing drive type "OneDrive"; a missing used
/// amount is the total less what remains, and a missing remaining amount
/// is the total less what is used.
pub fn account_from_drive(drive: &GraphDrive) -> (r: OneDriveAccount)
    ensures
        r.id@ == drive.id@,
        r.name@ == drive_name(*drive),
        r.drive_type@ == (match drive.drive_type {
            Some(t) => t@,
            None => "OneDrive"@,
        }),
        r.total_space == quota_total(*drive),
        r.used_space == quota_used(*drive),
        r.available_space == quota_available(*drive),
{
    let total: u64 = match &drive.quota {
        Some(q) => match q.total {
            Some(t) => t,
            None => 0,
        },
        None => 0,
    };
    let used: u64 = match &drive.quota {
        Some(q) => match q.used {
            Some(u) => u,
            None => total.saturating_sub(
                match q.remaining {
                    Some(r) => r,
                    None => total,
                },
            ),
        },
        None => total.saturating_sub(total),
    };
    let available: u64 = match &drive.quota {
        Some(q) => match q.remaining {
            Some(r) => r,
            None => total.saturating_sub(used),
        },
        None => total.saturating_sub(used),
    };
    let name = match &drive.owner {
        Some(o) => match &o.user {
            Some(u) => match &u.display_name {
                Some(n) => n.clone(),
                None => to_owned_string("Microsoft account"),
            },
            None => to_owned_string("Microsoft account"),
        },
        None => to_owned_string("Microsoft account"),
    };
    let drive_type = match &drive.drive_type {
        Some(t) => t.clone(),
        None => to_owned_string("OneDrive"),
    };
    OneDriveAccount {
        id: drive.id.clone(),
        name,
        drive_type,
        total_space: total,
        used_space: used,
        available_space: available,
    }
}

/// Position of the first account with this id.
pub open spec fn first_account(s: Seq<AccountView>, id: Seq<char>) -> int {
    choose|k: int| 0 <= k < s.len() && s[k].id == id && forall|m: int| 0 <= m < k ==> s[m].id != id
}

pub open spec fn has_account(s: Seq<AccountView>, id: Seq<char>) -> bool {
    exists|k: int| 0 <= k < s.len() && s[k].id == id
}

/// The account list after saving an account: the first account with the
/// same id is replaced, otherwise the account is appended.
pub open spec fn upserted(s: Seq<AccountView>, a: AccountView) -> Seq<AccountView> {
    if has_account(s, a.id) {
        s.update(first_account(s, a.id), a)
    } else {
        s.push(a)
    }
}

fn find_account(accounts: &Vec<OneDriveAccount>, id: &String) -> (r: Option<usize>)
    ensures
        r matches Some(k) ==> k < accounts@.len() && accounts@[k as int].id@ == id@
            && forall|m: int| 0 <= m < k ==> accounts@[m].id@ != id@,
        r is None ==> !has_account(accounts_view(accounts@), id@),
{
    for k in 0..accounts.len()
        invariant
            forall|m: int| 0 <= m < k ==> accounts@[m].id@ != id@,
    {
        if accounts[k].id.eq(id) {
            return Some(k);
        }
    }
    None
}

/// Whether an account with this id is connected.
pub fn is_connected(accounts: &Vec<OneDriveAccount>, account_id: &str) -> (r: bool)
    ensures
        r == has_account(accounts_view(accounts@), account_id@),
{
    let id = to_owned_string(account_id);
    match find_account(accounts, &id) {
        Some(k) => {
            assert(accounts_view(accounts@)[k as int].id == account_id@);
            true
        },
        None => false,
    }
}

/// Saves an account: replaces the first with the same id or appends it.
pub fn upsert_account(accounts: &mut Vec<OneDriveAccount>, account: OneDriveAccount)
    ensures
        accounts_view(final(accounts)@) == upserted(accounts_view(old(accounts)@), account@),
{
    let ghost s = accounts_view(accounts@);
    let ghost a = account@;
    let id = account.id.clone();
    match find_account(accounts, &id) {
        Some(k) => {
            proof {
                let c = first_account(s, a.id);
                assert(s[k as int].id == a.id);
                assert(forall|m: int| 0 <= m < k ==> s[m].id != a.id);
                assert(0 <= c < s.len() && s[c].id == a.id && forall|m: int| 0 <= m < c ==> s[m].id != a.id);
                if c < k {
                } else if c > k {
                    assert(s[k as int].id != a.id);
                }
                assert(c == k as int);
            }
            accounts.set(k, account);
            assert(accounts_view(accounts@) == s.update(k as int, a));
        },
        None => {
            accounts.push(account);
            assert(accounts_view(accounts@) == s.push(a));
        },
    }
}

/// Forgets every account with this id.
pub fn remove_account(accounts: &mut Vec<OneDriveAccount>, account_id: &str)
    ensures
        accounts_view(final(accounts)@) == accounts_view(old(accounts)@).filter(|a: AccountView| a.id != account_id@),
{
    let ghost s = accounts_view(accounts@);
    let id = to_owned_string(account_id);
    let mut out: Vec<OneDriveAccount> = Vec::new();
    let n = accounts.len();
    let mut rest: Vec<OneDriveAccount> = Vec::new();
    std::mem::swap(&mut rest, accounts);
    let ghost orig = rest@;
    let mut k: usize = 0;
    while k < n
        invariant
            n == orig.len(),
            k <= n,
            s == accounts_view(orig),
            id@ == account_id@,
            rest@ == orig.subrange(k as int, n as int),
            accounts_view(out@) == s.take(k as int).filter(|a: AccountView| a.id != account_id@),
        decreases n - k,
    {
        let x = rest.remove(0);
        proof {
            reveal_with_fuel(Seq::<_>::filter, 1);
            assert(s.take(k + 1).drop_last() == s.take(k as int));
            assert(s.take(k + 1).last() == x@);
        }
        if !x.id.eq(&id) {
            let ghost before = accounts_view(out@);
            out.push(x);
            assert(accounts_view(out@) == before.push(x@));
        }
        k = k + 1;
        assert(rest@ == orig.subrange(k as int, n as int));
    }
    assert(s.take(n as int) == s);
    *accounts = out;
}

// ---------------------------------------------------------------------
// Scans in progress
// ---------------------------------------------------------------------

/// Registers a scan of a connected account. `Ok(Some(state))` means a scan
/// of the account is already in progress and its state should be replayed;
/// `Ok(None)` means a new scan was registered and should be started.
pub fn start_scan(accounts: &Vec<OneDriveAccount>, scans: &mut ScanTable, account_id: &str) -> (r: Result<Option<ScanState>, String>)
    requires
        old(scans).wf(),
    ensures
        final(scans).wf(),
        !has_account(accounts_view(accounts@), account_id@) ==> (r matches Err(e)
            && e@ == "OneDrive account is not connected"@ && final(scans)@ == old(scans)@),
        has_account(accounts_view(accounts@), account_id@) ==> r == Ok::<Option<ScanState>, String>(old(scans).state_of(account_id@))
            && final(scans).state_of(account_id@) == crate::scan_table::begun_state(old(scans).state_of(account_id@)),
        forall|other: Seq<char>| other != account_id@ ==> #[trigger] final(scans).state_of(other) == old(scans).state_of(other),
{
    if !is_connected(accounts, account_id) {
        return Err(to_owned_string("OneDrive account is not connected"));
    }
    Ok(scans.begin(account_id))
}

/// Asks the scan of this account to stop, if one is in progress.
pub fn stop_scan(scans: &mut ScanTable, account_id: &str)
    requires
        old(scans).wf(),
    ensures
        final(scans).wf(),
        final(scans).state_of(account_id@) == crate::scan_table::cancelled_state(old(scans).state_of(account_id@)),
        forall|other: Seq<char>| other != account_id@ ==> #[trigger] final(scans).state_of(other) == old(scans).state_of(other),
{
    scans.cancel(account_id);
}

/// `Ok` while the scan of this account is registered and not cancelled;
/// otherwise the cancellation message.
pub fn ensure_scan_active(scans: &ScanTable, account_id: &str) -> (r: Result<(), String>)
    requires
        scans.wf(),
    ensures
        r is Ok <==> crate::scan_table::scan_active(scans.state_of(account_id@)),
        r matches Err(e) ==> e@ == SCAN_CANCELLED_MESSAGE@,
{
    let cancelled = match scans.get(account_id) {
        Some(st) => st.cancelled,
        None => true,
    };
    if cancelled {
        Err(to_owned_string(SCAN_CANCELLED_MESSAGE))
    } else {
        Ok(())
    }
}

/// Registers a single-item refresh, which may not overlap a scan.
pub fn start_refresh(accounts: &Vec<OneDriveAccount>, scans: &mut ScanTable, account_id: &str) -> (r: Result<(), String>)
    requires
        old(scans).wf(),
    ensures
        final(scans).wf(),
        !has_account(accounts_view(accounts@), account_id@) ==> (r matches Err(e)
            && e@ == "OneDrive account is not connected"@),
        has_account(accounts_view(accounts@), account_id@) && old(scans).state_of(account_id@) is Some
            ==> (r matches Err(e) && e@ == "Wait for the current OneDrive scan to finish before refreshing this item."@),
        r is Ok <==> has_account(accounts_view(accounts@), account_id@) && old(scans).state_of(account_id@) is None,
        r is Ok ==> final(scans).state_of(account_id@) == Some(crate::scan_table::fresh_state()),
        r is Err ==> final(scans).state_of(account_id@) == old(scans).state_of(account_id@),
        forall|other: Seq<char>| other != account_id@ ==> #[trigger] final(scans).state_of(other) == old(scans).state_of(other),
{
    if !is_connected(accounts, account_id) {
        return Err(to_owned_string("OneDrive account is not connected"));
    }
    match scans.get(account_id) {
        Some(_) => Err(to_owned_string("Wait for the current OneDrive scan to finish before refreshing this item.")),
        None => {
            scans.begin(account_id);
            Ok(())
        },
    }
}

/// Records the progress of a scan, if it is registered.
pub fn record_scan_status(scans: &mut ScanTable, account_id: &str, items: u64, total: u64)
    requires
        old(scans).wf(),
    ensures
        final(scans).wf(),
        final(scans).state_of(account_id@) == (match old(scans).state_of(account_id@) {
            Some(st) => Some(ScanState { items, total, ..st }),
            None => None::<ScanState>,
        }),
        forall|other: Seq<char>| other != account_id@ ==> #[trigger] final(scans).state_of(other) == old(scans).state_of(other),
{
    match scans.get(account_id) {
        Some(st) => scans.update(account_id, ScanState { items, total, ..st }),
        None => {},
    }
}

/// Records the phase of a scan, if it is registered.
pub fn record_scan_phase(scans: &mut ScanTable, account_id: &str, phase: ScanPhase)
    requires
        old(scans).wf(),
    ensures
        final(scans).wf(),
        final(scans).state_of(account_id@) == (match old(scans).state_of(account_id@) {
            Some(st) => Some(ScanState { phase: Some(phase), ..st }),
            None => None::<ScanState>,
        }),
        forall|other: Seq<char>| other != account_id@ ==> #[trigger] final(scans).state_of(other) == old(scans).state_of(other),
{
    match scans.get(account_id) {
        Some(st) => scans.update(account_id, ScanState { phase: Some(phase), ..st }),
        None => {},
    }
}

/// The event that announces a scan phase.
pub fn scan_phase_event(phase: ScanPhase) -> (r: &'static str)
    ensures
        r@ == (match phase {
            ScanPhase::Full => "onedrive_scan_full"@,
            ScanPhase::Incremental => "onedrive_scan_incremental"@,
            ScanPhase::Finalizing => "onedrive_scan_finalizing"@,
        }),
{
    match phase {
        ScanPhase::Full => "onedrive_scan_full",
        ScanPhase::Incremental => "onedrive_scan_incremental",
        ScanPhase::Finalizing => "onedrive_scan_finalizing",
    }
}


// ---------------------------------------------------------------------
// The cache of drive items
// ---------------------------------------------------------------------

impl GraphItem {
    /// A copy of the item.
    pub fn duplicate(&self) -> (r: GraphItem)
        ensures
            r == *self,
    {
        GraphItem {
            id: self.id.clone(),
            name: match &self.name {
                Some(n) => Some(n.clone()),
                None => None,
            },
            size: self.size,
            parent_reference: match &self.parent_reference {
                Some(p) => Some(ParentReference {
                    id: match &p.id {
                        Some(i) => Some(i.clone()),
                        None => None,
                    },
                }),
                None => None,
            },
            folder: self.folder,
            deleted: self.deleted,
        }
    }
}

pub open spec fn parent_of(p: Option<ParentReference>) -> Option<Seq<char>> {
    match p {
        Some(r) => opt_string_view(r.id),
        None => None,
    }
}

/// What the cache records of a drive item: a missing name reads
/// "(unnamed)", a missing size 0.
pub open spec fn delta_entry(item: GraphItem) -> ItemView {
    ItemView {
        id: item.id@,
        parent_id: parent_of(item.parent_reference),
        name: match item.name {
            Some(n) => n@,
            None => "(unnamed)"@,
        },
        size: match item.size {
            Some(n) => n,
            None => 0,
        },
        is_folder: item.folder,
    }
}

/// One change of a delta query applied to the cached items: a deleted
/// item leaves the cache, any other is stored under its id.
pub open spec fn apply_delta(s: Seq<ItemView>, item: GraphItem) -> Seq<ItemView> {
    if item.deleted {
        remove_item(s, item.id@)
    } else {
        insert_item(s, delta_entry(item))
    }
}

/// The changes applied in order.
pub open spec fn apply_deltas(s: Seq<ItemView>, items: Seq<GraphItem>) -> Seq<ItemView>
    decreases items.len(),
{
    if items.len() == 0 {
        s
    } else {
        apply_delta(apply_deltas(s, items.drop_last()), items.last())
    }
}

/// The fields of the cache besides its items.
pub open spec fn same_header(a: OneDriveCache, b: OneDriveCache) -> bool {
    &&& a.version@ == b.version@
    &&& a.account_id@ == b.account_id@
    &&& a.root_id@ == b.root_id@
    &&& a.delta_link@ == b.delta_link@
    &&& a.next_link@ == b.next_link@
    &&& a.checkpoint_items == b.checkpoint_items
    &&& a.checkpoint_bytes == b.checkpoint_bytes
}

/// Applies one change of a delta query to the cache.
pub fn apply_delta_item(cache: &mut OneDriveCache, item: GraphItem)
    requires
        old(cache).items.wf(),
    ensures
        final(cache).items.wf(),
        final(cache).items@ == apply_delta(old(cache).items@, item),
        same_header(*final(cache), *old(cache)),
{
    if item.deleted {
        cache.items.remove(item.id.as_str());
        return;
    }
    let ghost g = item;
    let entry = CachedItem {
        id: item.id,
        parent_id: match item.parent_reference {
            Some(p) => p.id,
            None => None,
        },
        name: match item.name {
            Some(n) => n,
            None => to_owned_string("(unnamed)"),
        },
        size: match item.size {
            Some(n) => n,
            None => 0,
        },
        is_folder: item.folder,
    };
    assert(entry@ == delta_entry(g));
    cache.items.insert(entry);
}

/// Removes a cached item and everything below it.
pub fn remove_cached_subtree(cache: &mut OneDriveCache, root_id: &str)
    requires
        old(cache).items.wf(),
    ensures
        final(cache).items.wf(),
        final(cache).items@ == without_subtree(old(cache).items@, root_id@),
        same_header(*final(cache), *old(cache)),
{
    cache.items.remove_subtree(root_id);
}

/// Each id's subtree removed in turn.
pub open spec fn without_subtrees(s: Seq<ItemView>, ids: Seq<Seq<char>>) -> Seq<ItemView>
    decreases ids.len(),
{
    if ids.len() == 0 {
        s
    } else {
        without_subtree(without_subtrees(s, ids.drop_last()), ids.last())
    }
}

/// Forgets the moved items, and what was below them, in the cache.
pub fn forget_deleted(cache: &mut OneDriveCache, deleted_ids: &Vec<String>)
    requires
        old(cache).items.wf(),
    ensures
        final(cache).items.wf(),
        final(cache).items@ == without_subtrees(old(cache).items@, deleted_ids@.map_values(|s: String| s@)),
        same_header(*final(cache), *old(cache)),
{
    let ghost ids = deleted_ids@.map_values(|s: String| s@);
    let ghost start = *cache;
    for k in 0..deleted_ids.len()
        invariant
            ids == deleted_ids@.map_values(|s: String| s@),
            cache.items.wf(),
            cache.items@ == without_subtrees(start.items@, ids.take(k as int)),
            same_header(*cache, start),
    {
        assert(ids.take(k + 1).drop_last() == ids.take(k as int));
        remove_cached_subtree(cache, deleted_ids[k].as_str());
    }
    assert(ids.take(deleted_ids.len() as int) == ids);
}

/// Whether a cache read from disk can be used for this account: it has the
/// current version, belongs to the account, and has a delta or a next link.
pub fn cache_usable(cache: &OneDriveCache, account_id: &str) -> (r: bool)
    ensures
        r == (cache.version@ == CACHE_VERSION@ && cache.account_id@ == account_id@
            && (cache.delta_link@.len() > 0 || cache.next_link@.len() > 0)),
{
    let v = to_owned_string(CACHE_VERSION);
    let a = to_owned_string(account_id);
    cache.version == v && cache.account_id == a && (!cache.delta_link.as_str().is_empty()
        || !cache.next_link.as_str().is_empty())
}

/// A cache holding only the drive's root, before any delta query: a
/// missing root name reads "OneDrive", a missing size 0.
pub fn empty_cache(account_id: &str, root: GraphItem) -> (r: OneDriveCache)
    ensures
        r.items.wf(),
        r.version@ == CACHE_VERSION@,
        r.account_id@ == account_id@,
        r.root_id@ == root.id@,
        r.delta_link@.len() == 0,
        r.next_link@.len() == 0,
        r.checkpoint_items == 0,
        r.checkpoint_bytes == 0,
        r.items@ == seq![ItemView {
            id: root.id@,
            parent_id: None,
            name: match root.name {
                Some(n) => n@,
                None => "OneDrive"@,
            },
            size: match root.size {
                Some(n) => n,
                None => 0,
            },
            is_folder: true,
        }],
{
    let ghost g = root;
    let root_id = root.id.clone();
    let mut items = CloudItems::new();
    items.insert(CachedItem {
        id: root.id,
        parent_id: None,
        name: match root.name {
            Some(n) => n,
            None => to_owned_string("OneDrive"),
        },
        size: match root.size {
            Some(n) => n,
            None => 0,
        },
        is_folder: true,
    });
    OneDriveCache {
        version: to_owned_string(CACHE_VERSION),
        account_id: to_owned_string(account_id),
        root_id,
        delta_link: String::new(),
        next_link: String::new(),
        checkpoint_items: 0,
        checkpoint_bytes: 0,
        items,
    }
}

// ---------------------------------------------------------------------
// Trees
// ---------------------------------------------------------------------

/// Below the drive root, every item hangs under its parent; the root
/// itself is not listed.
pub open spec fn scan_rule() -> LinkRule {
    LinkRule { skip_root: true, orphans_to_root: false }
}

/// Below a refreshed item, every item hangs under its parent.
pub open spec fn item_rule() -> LinkRule {
    LinkRule { skip_root: false, orphans_to_root: false }
}

/// The tree of a scan: "OneDrive - " and the account name, the root's id,
/// and the items below the root, largest first, with their total size.
pub fn build_scan_tree(cache: &OneDriveCache, account: &OneDriveAccount) -> (r: CloudTree)
    requires
        cache.items.wf(),
        sum_sizes(top_nodes(cache.items@, scan_rule(), cache.root_id@)) <= u64::MAX,
    ensures
        r.display_name@ == "OneDrive - "@ + account.name@,
        r.root_id@ == cache.root_id@,
        r.size == sum_sizes(top_nodes(cache.items@, scan_rule(), cache.root_id@)),
        nodes_view(r.children@) == sort_desc(top_nodes(cache.items@, scan_rule(), cache.root_id@)),
{
    let mut name = to_owned_string("OneDrive - ");
    push_str(&mut name, account.name.as_str());
    let rule = LinkRule { skip_root: true, orphans_to_root: false };
    build_tree(&cache.items, rule, cache.root_id.as_str(), name)
}

/// Whether the tree of a scan has a total size that fits in 64 bits, as
/// `build_scan_tree` needs.
pub fn scan_tree_fits(cache: &OneDriveCache) -> (r: bool)
    requires
        cache.items.wf(),
    ensures
        r == (sum_sizes(top_nodes(cache.items@, scan_rule(), cache.root_id@)) <= u64::MAX),
{
    let rule = LinkRule { skip_root: true, orphans_to_root: false };
    crate::cloud_tree::tree_size_fits(&cache.items, rule, cache.root_id.as_str())
}

/// Whether the tree of a refreshed item has a size that fits in 64 bits,
/// as `build_item_tree` needs.
pub fn item_tree_fits(cache: &OneDriveCache, item_id: &str) -> (r: bool)
    requires
        cache.items.wf(),
    ensures
        r == node_fits(item_node(cache.items@, item_rule(), cache.root_id@, item_id@)),
{
    let rule = LinkRule { skip_root: false, orphans_to_root: false };
    crate::cloud_tree::subtree_size_fits(&cache.items, rule, cache.root_id.as_str(), item_id)
}

/// The tree of one refreshed item, or the error when it is not cached.
pub fn build_item_tree(cache: &OneDriveCache, item_id: &str) -> (r: Result<CloudNode, String>)
    requires
        cache.items.wf(),
        node_fits(item_node(cache.items@, item_rule(), cache.root_id@, item_id@)),
    ensures
        match r {
            Ok(n) => item_node(cache.items@, item_rule(), cache.root_id@, item_id@) == Some(crate::cloud_tree::node_view(n)),
            Err(e) => item_node(cache.items@, item_rule(), cache.root_id@, item_id@) is None
                && e@ == "The refreshed OneDrive item could not be rebuilt."@,
        },
{
    let rule = LinkRule { skip_root: false, orphans_to_root: false };
    match build_subtree(&cache.items, rule, cache.root_id.as_str(), item_id) {
        Some(n) => Ok(n),
        None => Err(to_owned_string("The refreshed OneDrive item could not be rebuilt.")),
    }
}


// ---------------------------------------------------------------------
// Microsoft Graph requests
// ---------------------------------------------------------------------

/// The drive's id, type, owner and quota.
pub fn drive_info_url() -> (r: String)
    ensures
        r@ == GRAPH_ROOT@ + "/me/drive?$select=id,driveType,owner,quota"@,
{
    let mut u = to_owned_string(GRAPH_ROOT);
    push_str(&mut u, "/me/drive?$select=id,driveType,owner,quota");
    u
}

/// The drive's root item.
pub fn drive_root_url() -> (r: String)
    ensures
        r@ == GRAPH_ROOT@ + "/me/drive/root?$select=id,name,size,parentReference,folder"@,
{
    let mut u = to_owned_string(GRAPH_ROOT);
    push_str(&mut u, "/me/drive/root?$select=id,name,size,parentReference,folder");
    u
}

pub open spec fn initial_delta_url_spec() -> Seq<char> {
    GRAPH_ROOT@ + "/me/drive/root/delta?$select=id,name,size,parentReference,folder,file,deleted"@
}

/// The first page of a full delta query over the drive.
pub fn initial_delta_url() -> (r: String)
    ensures
        r@ == initial_delta_url_spec(),
{
    let mut u = to_owned_string(GRAPH_ROOT);
    push_str(&mut u, "/me/drive/root/delta?$select=id,name,size,parentReference,folder,file,deleted");
    u
}

pub open spec fn item_segments(account_id: Seq<char>, item_id: Seq<char>) -> Seq<Seq<char>> {
    seq!["drives"@, account_id, "items"@, item_id]
}

/// The Graph URL of a drive item: the id segments are appended to
/// `GRAPH_ROOT/` with the url crate, which escapes them.
pub fn drive_item_url(account_id: &str, item_id: &str) -> (r: Result<String, String>)
    ensures
        match r {
            Ok(u) => spec_url_with_segments(GRAPH_ROOT@ + "/"@, item_segments(account_id@, item_id@)) == Some(u@),
            Err(e) => spec_url_with_segments(GRAPH_ROOT@ + "/"@, item_segments(account_id@, item_id@)) is None
                && e@ == "Could not build Microsoft Graph item URL"@,
        },
{
    let mut base = to_owned_string(GRAPH_ROOT);
    push_str(&mut base, "/");
    let mut segments: Vec<String> = Vec::new();
    segments.push(to_owned_string("drives"));
    segments.push(to_owned_string(account_id));
    segments.push(to_owned_string("items"));
    segments.push(to_owned_string(item_id));
    assert(segments@.map_values(|s: String| s@) == item_segments(account_id@, item_id@));
    match url_with_segments(base.as_str(), &segments) {
        Some(u) => Ok(u),
        None => Err(to_owned_string("Could not build Microsoft Graph item URL")),
    }
}

/// The item URL with a query suffix appended.
fn item_url_with(account_id: &str, item_id: &str, suffix: &str) -> (r: Result<String, String>)
    ensures
        match r {
            Ok(u) => exists|base: Seq<char>| spec_url_with_segments(GRAPH_ROOT@ + "/"@, item_segments(account_id@, item_id@)) == Some(base)
                && u@ == base + suffix@,
            Err(e) => spec_url_with_segments(GRAPH_ROOT@ + "/"@, item_segments(account_id@, item_id@)) is None
                && e@ == "Could not build Microsoft Graph item URL"@,
        },
{
    match drive_item_url(account_id, item_id) {
        Ok(mut u) => {
            let ghost b = u@;
            push_str(&mut u, suffix);
            Ok(u)
        },
        Err(e) => Err(e),
    }
}

/// The URL that reads the selected item during a refresh.
pub fn selected_item_url(account_id: &str, item_id: &str) -> (r: Result<String, String>)
    ensures
        match r {
            Ok(u) => exists|base: Seq<char>| spec_url_with_segments(GRAPH_ROOT@ + "/"@, item_segments(account_id@, item_id@)) == Some(base)
                && u@ == base + "?$select=id,name,size,parentReference,folder,file"@,
            Err(e) => spec_url_with_segments(GRAPH_ROOT@ + "/"@, item_segments(account_id@, item_id@)) is None
                && e@ == "Could not build Microsoft Graph item URL"@,
        },
{
    item_url_with(account_id, item_id, "?$select=id,name,size,parentReference,folder,file")
}

/// The URL of the first page of a folder's children during a refresh.
pub fn children_url(account_id: &str, folder_id: &str) -> (r: Result<String, String>)
    ensures
        match r {
            Ok(u) => exists|base: Seq<char>| spec_url_with_segments(GRAPH_ROOT@ + "/"@, item_segments(account_id@, folder_id@)) == Some(base)
                && u@ == base + "/children?$select=id,name,size,parentReference,folder,file&$top=200"@,
            Err(e) => spec_url_with_segments(GRAPH_ROOT@ + "/"@, item_segments(account_id@, folder_id@)) is None
                && e@ == "Could not build Microsoft Graph item URL"@,
        },
{
    item_url_with(account_id, folder_id, "/children?$select=id,name,size,parentReference,folder,file&$top=200")
}

/// An error text that calls for a new delta query.
pub open spec fn is_delta_resync_spec(m: Seq<char>) -> bool {
    let l = lower_seq(m);
    seq_contains(l, "410 gone"@) || seq_contains(l, "resyncrequired"@)
        || seq_contains(l, "resyncchangesapplydifferences"@) || seq_contains(l, "resyncchangesuploaddifferences"@)
}

/// Whether an error says that the delta token expired, ignoring case.
pub fn is_delta_resync_error(message: &str) -> (r: bool)
    ensures
        r == is_delta_resync_spec(message@),
{
    let c = chars_of(message);
    let l = ascii_lowercase(c.as_slice());
    contains_str(l.as_slice(), "410 gone") || contains_str(l.as_slice(), "resyncrequired")
        || contains_str(l.as_slice(), "resyncchangesapplydifferences") || contains_str(
        l.as_slice(),
        "resyncchangesuploaddifferences",
    )
}

/// An error text that says the access token was refused.
pub open spec fn is_authentication_spec(m: Seq<char>) -> bool {
    let l = lower_seq(m);
    seq_contains(l, "401 unauthorized"@) || seq_contains(l, "invalidauthenticationtoken"@)
}

/// Whether an error says that the access token was refused, ignoring case.
pub fn is_authentication_error(message: &str) -> (r: bool)
    ensures
        r == is_authentication_spec(message@),
{
    let c = chars_of(message);
    let l = ascii_lowercase(c.as_slice());
    contains_str(l.as_slice(), "401 unauthorized") || contains_str(l.as_slice(), "invalidauthenticationtoken")
}

/// The answers to a move to the recycle bin that are worth retrying.
pub open spec fn retryable_delete_spec(status: u16) -> bool {
    status == 408 || status == 409 || status == 423 || status == 429 || status == 500
        || status == 502 || status == 503 || status == 504
}

/// Whether a failed move to the recycle bin is worth retrying.
pub fn is_retryable_delete_status(status: u16) -> (r: bool)
    ensures
        r == retryable_delete_spec(status),
{
    status == 408 || status == 409 || status == 423 || status == 429 || status == 500
        || status == 502 || status == 503 || status == 504
}

/// The error for a Graph answer, given the status text and what the body
/// held: the `error.message` of a JSON body, when it is not blank, follows
/// the status.
pub open spec fn graph_error_text(status: Seq<char>, parsed: Result<Option<Seq<char>>, Seq<char>>) -> Seq<char> {
    match parsed {
        Ok(Some(m)) => if trim_seq(m).len() > 0 {
            "Microsoft Graph returned "@ + status + ": "@ + m
        } else {
            "Microsoft Graph returned "@ + status
        },
        _ => "Microsoft Graph returned "@ + status,
    }
}

/// The error for a Graph answer, from the status text and the outcome of
/// reading the body as JSON.
pub fn graph_error_from(status: &str, parsed: Result<Option<String>, String>) -> (r: String)
    ensures
        r@ == graph_error_text(status@, match parsed {
            Ok(Some(m)) => Ok(Some(m@)),
            Ok(None) => Ok(None),
            Err(e) => Err(e@),
        }),
{
    let mut out = to_owned_string("Microsoft Graph returned ");
    push_str(&mut out, status);
    match parsed {
        Ok(Some(m)) => {
            let c = chars_of(m.as_str());
            if !is_blank(c.as_slice()) {
                push_str(&mut out, ": ");
                push_str(&mut out, m.as_str());
            }
        },
        _ => {},
    }
    out
}

/// The error for a failed Graph request, with the message from the body
/// when it has one.
pub fn graph_error_message(status: u16, body: &str) -> (r: String)
    requires
        100 <= status <= 999,
    ensures
        r@ == graph_error_text(spec_status_text(status), spec_json_inspect(body@)),
{
    let text = status_text(status);
    let parsed = json_inspect(body);
    graph_error_from(text.as_str(), parsed)
}

/// What to do with the answer to a Graph read.
#[derive(Debug)]
pub enum GraphStep {
    /// The request succeeded: read the body.
    Accept,
    /// Throttled: try again after the delay.
    Retry { attempts: u32, delay_secs: u64 },
    /// Refused: the error to report, with the body still to be appended.
    Reject,
    /// Throttled too often: the error to report.
    Unavailable(String),
}

/// Decides on the answer to a Graph read: 2xx is accepted; 429 and 503
/// are retried as `throttled_step` says, and then reported unavailable;
/// anything else is refused.
pub fn graph_get_step(status: u16, attempts: u32, retry_after: Option<&str>) -> (r: GraphStep)
    requires
        100 <= status <= 999,
        attempts <= crate::retry::MAX_RETRIES,
    ensures
        200 <= status <= 299 ==> r is Accept,
        (status == 429 || status == 503) ==> ({
            let (go, a, d) = crate::retry::throttled_spec(attempts, match retry_after {
                Some(h) => Some(h@),
                None => None,
            });
            match r {
                GraphStep::Retry { attempts: ra, delay_secs } => go && ra == a && delay_secs == d,
                GraphStep::Unavailable(m) => !go && m@ == "Microsoft Graph remained unavailable ("@ + spec_status_text(status) + ")"@,
                _ => false,
            }
        }),
        !(200 <= status <= 299) && !(status == 429 || status == 503) ==> r is Reject,
{
    if status == 429 || status == 503 {
        match crate::retry::throttled_step(attempts, retry_after) {
            crate::retry::RetryStep::Retry { attempts, delay_secs } => GraphStep::Retry { attempts, delay_secs },
            crate::retry::RetryStep::GiveUp => {
                let mut m = to_owned_string("Microsoft Graph remained unavailable (");
                let t = status_text(status);
                push_str(&mut m, t.as_str());
                push_str(&mut m, ")");
                GraphStep::Unavailable(m)
            },
        }
    } else if 200 <= status && status <= 299 {
        GraphStep::Accept
    } else {
        GraphStep::Reject
    }
}

/// The error for a refused Graph read: the status and the whole body.
pub fn graph_rejection(status: u16, body: &str) -> (r: String)
    requires
        100 <= status <= 999,
    ensures
        r@ == "Microsoft Graph returned "@ + spec_status_text(status) + ": "@ + body@,
{
    let mut m = to_owned_string("Microsoft Graph returned ");
    let t = status_text(status);
    push_str(&mut m, t.as_str());
    push_str(&mut m, ": ");
    push_str(&mut m, body);
    m
}

/// What to do with the answer to a move to the recycle bin.
#[derive(Debug)]
pub enum DeleteStep {
    /// Moved, or already gone.
    Done,
    /// Try again after the delay.
    Retry { attempts: u32, delay_secs: u64 },
    /// Failed: read the body for `graph_error_message`.
    Fail,
}

/// Decides on the answer to a move: 204 and 404 mean done; the retryable
/// statuses are retried as `throttled_step` says; anything else fails.
pub fn delete_step(status: u16, attempts: u32, retry_after: Option<&str>) -> (r: DeleteStep)
    requires
        attempts <= crate::retry::MAX_RETRIES,
    ensures
        (status == 204 || status == 404) ==> r is Done,
        !(status == 204 || status == 404) && retryable_delete_spec(status) ==> ({
            let (go, a, d) = crate::retry::throttled_spec(attempts, match retry_after {
                Some(h) => Some(h@),
                None => None,
            });
            match r {
                DeleteStep::Retry { attempts: ra, delay_secs } => go && ra == a && delay_secs == d,
                DeleteStep::Fail => !go,
                _ => false,
            }
        }),
        !(status == 204 || status == 404) && !retryable_delete_spec(status) ==> r is Fail,
{
    if status == 204 || status == 404 {
        DeleteStep::Done
    } else if is_retryable_delete_status(status) {
        match crate::retry::throttled_step(attempts, retry_after) {
            crate::retry::RetryStep::Retry { attempts, delay_secs } => DeleteStep::Retry { attempts, delay_secs },
            crate::retry::RetryStep::GiveUp => DeleteStep::Fail,
        }
    } else {
        DeleteStep::Fail
    }
}

/// After a move could not be sent: retried on a connection error or a
/// timeout as `reconnect_step` says, otherwise the error to report.
pub fn delete_send_failure(attempts: u32, transient: bool, error: &str) -> (r: Result<(u32, u64), String>)
    requires
        attempts <= crate::retry::MAX_RETRIES,
    ensures
        match crate::retry::reconnect_spec(attempts, transient) {
            Some(p) => r == Ok::<(u32, u64), String>(p),
            None => r matches Err(e) && e@ == "Could not reach Microsoft Graph while moving the item: "@ + error@,
        },
{
    match crate::retry::reconnect_step(attempts, transient) {
        Some(p) => Ok(p),
        None => {
            let mut m = to_owned_string("Could not reach Microsoft Graph while moving the item: ");
            push_str(&mut m, error);
            Err(m)
        },
    }
}


// ---------------------------------------------------------------------
// The delta query loop
// ---------------------------------------------------------------------

/// The phase a scan opens with: with no usable cache, or a cache whose
/// first delta query never finished, the whole drive is listed.
pub fn opening_phase(cached: &Option<OneDriveCache>) -> (r: ScanPhase)
    ensures
        r == (match cached {
            Some(c) => if c.delta_link@.len() == 0 {
                ScanPhase::Full
            } else {
                ScanPhase::Incremental
            },
            None => ScanPhase::Full,
        }),
{
    match cached {
        Some(c) => if c.delta_link.as_str().is_empty() {
            ScanPhase::Full
        } else {
            ScanPhase::Incremental
        },
        None => ScanPhase::Full,
    }
}

/// Where a delta query loop stands.
#[derive(Debug)]
pub struct DeltaScan {
    /// The page to read next.
    pub next_url: String,
    /// A delta token that has expired may still lead to a full listing.
    pub can_restart_full: bool,
    /// Changes read so far.
    pub changed_items: u64,
    /// Bytes of the files among them, saturating.
    pub changed_bytes: u64,
    /// `changed_items` when the cache was last written.
    pub last_checkpoint_items: u64,
    /// The access token was just renewed after a refusal.
    pub authentication_retried: bool,
}

/// The page a scan starts from: the checkpointed next page, else a new
/// full query when there is no delta link, else the delta link.
/// A scan resumes an interrupted listing at its saved link; otherwise,
/// after a finished scan, it reads only the changes since then from the
/// saved delta link; only a drive never scanned is listed in full.
pub proof fn law_first_url(c: OneDriveCache)
    ensures
        c.next_link@.len() > 0 ==> first_url(c) == c.next_link@,
        c.next_link@.len() == 0 && c.delta_link@.len() > 0 ==> first_url(c) == c.delta_link@,
        c.next_link@.len() == 0 && c.delta_link@.len() == 0 ==> first_url(c) == initial_delta_url_spec(),
{
}

pub open spec fn first_url(c: OneDriveCache) -> Seq<char> {
    if c.next_link@.len() > 0 {
        c.next_link@
    } else if c.delta_link@.len() == 0 {
        initial_delta_url_spec()
    } else {
        c.delta_link@
    }
}

/// What a page of changes does to the byte count: a file that is not
/// deleted adds its size, saturating.
pub open spec fn bytes_after(b: u64, items: Seq<GraphItem>) -> u64
    decreases items.len(),
{
    if items.len() == 0 {
        b
    } else {
        let prev = bytes_after(b, items.drop_last());
        let it = items.last();
        if !it.folder && !it.deleted {
            prev.saturating_add(
                match it.size {
                    Some(n) => n,
                    None => 0,
                },
            )
        } else {
            prev
        }
    }
}

/// What to do after a page could not be read.
#[derive(Debug)]
pub enum DeltaErrorAction {
    /// Renew the access token and read the page again.
    RefreshToken,
    /// Drop the cache and start a full listing.
    RestartFull,
    /// Stop the scan with this error.
    Fail(String),
}

/// After a page of a delta query.
#[derive(Debug)]
pub enum PageOutcome {
    /// Another page follows; `write_checkpoint` says whether the cache
    /// should be written now.
    More { write_checkpoint: bool },
    /// The query finished with a new delta link.
    Finished,
}

pub open spec fn same_scan_counts(a: DeltaScan, b: DeltaScan) -> bool {
    &&& a.next_url@ == b.next_url@
    &&& a.can_restart_full == b.can_restart_full
    &&& a.changed_items == b.changed_items
    &&& a.changed_bytes == b.changed_bytes
    &&& a.last_checkpoint_items == b.last_checkpoint_items
}

/// Starts the loop over a cache. The flag says whether the cache must be
/// written first (it had no next link and now records the first page);
/// otherwise the checkpointed progress is reported.
pub fn begin_delta_scan(cache: &mut OneDriveCache) -> (r: (DeltaScan, bool))
    ensures
        r.0.next_url@ == first_url(*old(cache)),
        r.0.can_restart_full == (old(cache).delta_link@.len() > 0),
        r.0.changed_items == old(cache).checkpoint_items,
        r.0.changed_bytes == old(cache).checkpoint_bytes,
        r.0.last_checkpoint_items == old(cache).checkpoint_items,
        !r.0.authentication_retried,
        r.1 == (old(cache).next_link@.len() == 0),
        final(cache).next_link@ == first_url(*old(cache)),
        final(cache).items == old(cache).items,
        final(cache).version@ == old(cache).version@,
        final(cache).account_id@ == old(cache).account_id@,
        final(cache).root_id@ == old(cache).root_id@,
        final(cache).delta_link@ == old(cache).delta_link@,
        final(cache).checkpoint_items == old(cache).checkpoint_items,
        final(cache).checkpoint_bytes == old(cache).checkpoint_bytes,
        old(cache).next_link@.len() > 0 ==> r.0.next_url@ == old(cache).next_link@,
        old(cache).next_link@.len() == 0 && old(cache).delta_link@.len() > 0 ==> r.0.next_url@ == old(cache).delta_link@,
        old(cache).next_link@.len() == 0 && old(cache).delta_link@.len() == 0 ==> r.0.next_url@ == initial_delta_url_spec(),
        final(cache).next_link@ == r.0.next_url@,
{
    let next_url = if !cache.next_link.as_str().is_empty() {
        cache.next_link.clone()
    } else if cache.delta_link.as_str().is_empty() {
        initial_delta_url()
    } else {
        cache.delta_link.clone()
    };
    let write_now = cache.next_link.as_str().is_empty();
    if write_now {
        cache.next_link = next_url.clone();
    }
    let scan = DeltaScan {
        next_url,
        can_restart_full: !cache.delta_link.as_str().is_empty(),
        changed_items: cache.checkpoint_items,
        changed_bytes: cache.checkpoint_bytes,
        last_checkpoint_items: cache.checkpoint_items,
        authentication_retried: false,
    };
    (scan, write_now)
}

impl DeltaScan {
    /// The access token was renewed on schedule.
    pub fn token_renewed(&mut self)
        ensures
            !final(self).authentication_retried,
            same_scan_counts(*final(self), *old(self)),
    {
        self.authentication_retried = false;
    }

    /// Decides what follows a failed read: one token renewal after a
    /// refused token, then "sign-in expired"; an expired delta token
    /// restarts a full listing once, then asks for a clean rescan; any
    /// other error ends the scan.
    pub fn on_error(&mut self, error: &str) -> (r: DeltaErrorAction)
        ensures
            same_scan_counts(*final(self), *old(self)),
            is_authentication_spec(error@) && !old(self).authentication_retried ==> (r is RefreshToken
                && final(self).authentication_retried),
            is_authentication_spec(error@) && old(self).authentication_retried ==> (r matches DeltaErrorAction::Fail(m)
                && m@ == "Microsoft sign-in expired during the scan. Reconnect OneDrive and try again."@),
            !is_authentication_spec(error@) && is_delta_resync_spec(error@) && old(self).can_restart_full
                ==> r is RestartFull,
            !is_authentication_spec(error@) && is_delta_resync_spec(error@) && !old(self).can_restart_full
                ==> (r matches DeltaErrorAction::Fail(m)
                && m@ == "OneDrive could not restart its change index. Use Clean Cache & Rescan."@),
            !is_authentication_spec(error@) && !is_delta_resync_spec(error@) ==> (r matches DeltaErrorAction::Fail(m)
                && m@ == error@),
            !(r is RefreshToken) ==> final(self).authentication_retried == old(self).authentication_retried,
    {
        let auth = is_authentication_error(error);
        if auth && !self.authentication_retried {
            self.authentication_retried = true;
            return DeltaErrorAction::RefreshToken;
        }
        if auth {
            return DeltaErrorAction::Fail(
                to_owned_string("Microsoft sign-in expired during the scan. Reconnect OneDrive and try again."),
            );
        }
        let resync = is_delta_resync_error(error);
        if resync && self.can_restart_full {
            DeltaErrorAction::RestartFull
        } else if resync {
            DeltaErrorAction::Fail(to_owned_string("OneDrive could not restart its change index. Use Clean Cache & Rescan."))
        } else {
            DeltaErrorAction::Fail(to_owned_string(error))
        }
    }

    /// Restarts with a fresh cache: a new full query, recorded as the
    /// cache's next page, with the counts back at zero; no second restart.
    pub fn restart_full(&mut self, cache: &mut OneDriveCache)
        ensures
            final(self).next_url@ == initial_delta_url_spec(),
            !final(self).can_restart_full,
            final(self).changed_items == 0,
            final(self).changed_bytes == 0,
            final(self).last_checkpoint_items == 0,
            !final(self).authentication_retried,
            final(cache).next_link@ == initial_delta_url_spec(),
            final(cache).items == old(cache).items,
            final(cache).version@ == old(cache).version@,
            final(cache).account_id@ == old(cache).account_id@,
            final(cache).root_id@ == old(cache).root_id@,
            final(cache).delta_link@ == old(cache).delta_link@,
            final(cache).checkpoint_items == old(cache).checkpoint_items,
            final(cache).checkpoint_bytes == old(cache).checkpoint_bytes,
    {
        self.next_url = initial_delta_url();
        cache.next_link = self.next_url.clone();
        self.can_restart_full = false;
        self.changed_items = 0;
        self.changed_bytes = 0;
        self.last_checkpoint_items = 0;
        self.authentication_retried = false;
    }

    /// Applies a page of changes: every change is counted and applied to
    /// the cache. With a next page, the cache records it and the counts as
    /// a checkpoint, to be written once 20 000 changes have gone by since
    /// the last write; without one, the page must carry the new delta link,
    /// and the checkpoint is cleared.
    pub fn apply_delta_page(&mut self, cache: &mut OneDriveCache, page: DeltaPage) -> (r: Result<PageOutcome, String>)
        requires
            old(cache).items.wf(),
            old(self).changed_items + page.value@.len() <= u64::MAX,
        ensures
            final(cache).items.wf(),
            final(cache).items@ == apply_deltas(old(cache).items@, page.value@),
            final(self).changed_items == old(self).changed_items + page.value@.len(),
            final(self).changed_bytes == bytes_after(old(self).changed_bytes, page.value@),
            !final(self).authentication_retried,
            final(self).can_restart_full == old(self).can_restart_full,
            final(cache).version@ == old(cache).version@,
            final(cache).account_id@ == old(cache).account_id@,
            final(cache).root_id@ == old(cache).root_id@,
            match page.next_link {
                Some(next) => {
                    let gone = if final(self).changed_items >= old(self).last_checkpoint_items {
                        final(self).changed_items - old(self).last_checkpoint_items
                    } else {
                        0
                    };
                    &&& r matches Ok(PageOutcome::More { write_checkpoint })
                        && write_checkpoint == (gone >= CHECKPOINT_ITEM_INTERVAL)
                        && final(self).last_checkpoint_items == (if write_checkpoint {
                            final(self).changed_items
                        } else {
                            old(self).last_checkpoint_items
                        })
                    &&& final(self).next_url@ == next@
                    &&& final(cache).next_link@ == next@
                    &&& final(cache).checkpoint_items == final(self).changed_items
                    &&& final(cache).checkpoint_bytes == final(self).changed_bytes
                    &&& final(cache).delta_link@ == old(cache).delta_link@
                },
                None => {
                    &&& final(self).next_url@ == old(self).next_url@
                    &&& final(self).last_checkpoint_items == old(self).last_checkpoint_items
                    &&& match page.delta_link {
                        Some(d) => {
                            &&& r matches Ok(PageOutcome::Finished)
                            &&& final(cache).delta_link@ == d@
                            &&& final(cache).next_link@.len() == 0
                            &&& final(cache).checkpoint_items == 0
                            &&& final(cache).checkpoint_bytes == 0
                        },
                        None => {
                            &&& r matches Err(e) && e@ == "OneDrive scan ended without a delta token"@
                            &&& final(cache).delta_link@ == old(cache).delta_link@
                            &&& final(cache).next_link@ == old(cache).next_link@
                        },
                    }
                },
            },
    {
        self.authentication_retried = false;
        let ghost items0 = cache.items@;
        let ghost bytes0 = self.changed_bytes;
        let ghost count0 = self.changed_items;
        let n = page.value.len();
        for k in 0..n
            invariant
                n == page.value@.len(),
                count0 + n <= u64::MAX,
                cache.items.wf(),
                cache.items@ == apply_deltas(items0, page.value@.take(k as int)),
                self.changed_items == count0 + k,
                self.changed_bytes == bytes_after(bytes0, page.value@.take(k as int)),
                cache.version@ == old(cache).version@,
                cache.account_id@ == old(cache).account_id@,
                cache.root_id@ == old(cache).root_id@,
                cache.delta_link@ == old(cache).delta_link@,
                cache.next_link@ == old(cache).next_link@,
                self.next_url@ == old(self).next_url@,
                self.last_checkpoint_items == old(self).last_checkpoint_items,
                self.can_restart_full == old(self).can_restart_full,
                !self.authentication_retried,
        {
            let item = page.value[k].duplicate();
            assert(page.value@.take(k + 1).drop_last() == page.value@.take(k as int));
            assert(page.value@.take(k + 1).last() == item);
            self.changed_items = self.changed_items + 1;
            if !item.folder && !item.deleted {
                let size: u64 = match item.size {
                    Some(n) => n,
                    None => 0,
                };
                self.changed_bytes = self.changed_bytes.saturating_add(size);
            }
            apply_delta_item(cache, item);
        }
        assert(page.value@.take(n as int) == page.value@);
        match page.next_link {
            Some(next) => {
                cache.next_link = next.clone();
                cache.checkpoint_items = self.changed_items;
                cache.checkpoint_bytes = self.changed_bytes;
                let write_checkpoint = self.changed_items.saturating_sub(self.last_checkpoint_items)
                    >= CHECKPOINT_ITEM_INTERVAL;
                if write_checkpoint {
                    self.last_checkpoint_items = self.changed_items;
                }
                self.next_url = next;
                Ok(PageOutcome::More { write_checkpoint })
            },
            None => match page.delta_link {
                Some(d) => {
                    cache.delta_link = d;
                    cache.next_link = String::new();
                    cache.checkpoint_items = 0;
                    cache.checkpoint_bytes = 0;
                    Ok(PageOutcome::Finished)
                },
                None => Err(to_owned_string("OneDrive scan ended without a delta token")),
            },
        }
    }
}


// ---------------------------------------------------------------------
// Moving items to the recycle bin
// ---------------------------------------------------------------------

pub open spec fn strings_view(v: Seq<String>) -> Seq<Seq<char>> {
    v.map_values(|s: String| s@)
}

pub open spec fn failures_view(v: Seq<OneDriveDeleteFailure>) -> Seq<(Seq<char>, Seq<char>)> {
    v.map_values(|f: OneDriveDeleteFailure| (f.item_id@, f.message@))
}

/// Whether a delete request has anything to do: `Ok(false)` for an empty
/// request, which needs no account; otherwise the account must be
/// connected.
pub fn check_delete_request(accounts: &Vec<OneDriveAccount>, account_id: &str, item_count: usize) -> (r: Result<bool, String>)
    ensures
        item_count == 0 ==> r == Ok::<bool, String>(false),
        item_count > 0 && has_account(accounts_view(accounts@), account_id@) ==> r == Ok::<bool, String>(true),
        item_count > 0 && !has_account(accounts_view(accounts@), account_id@) ==> (r matches Err(e)
            && e@ == "OneDrive account is not connected"@),
{
    if item_count == 0 {
        return Ok(false);
    }
    if !is_connected(accounts, account_id) {
        return Err(to_owned_string("OneDrive account is not connected"));
    }
    Ok(true)
}

/// Moving items needs the permission granted at sign-in.
pub fn check_delete_permission(can_delete: bool) -> (r: Result<(), String>)
    ensures
        can_delete <==> r is Ok,
        r matches Err(e) ==> e@ == "Reconnect OneDrive from All Disks to grant permission to move items to the Recycle Bin."@,
{
    if can_delete {
        Ok(())
    } else {
        Err(to_owned_string("Reconnect OneDrive from All Disks to grant permission to move items to the Recycle Bin."))
    }
}

/// Whether a failed move should be tried once more with a renewed token.
pub fn needs_reauth(outcome: &Result<(), String>) -> (r: bool)
    ensures
        r == (outcome matches Err(e) && is_authentication_spec(e@)),
{
    match outcome {
        Ok(()) => false,
        Err(e) => is_authentication_error(e.as_str()),
    }
}

/// The moved ids and the failures after recording one outcome, as
/// `record` makes them.
pub open spec fn record_step(
    done: (Seq<Seq<char>>, Seq<(Seq<char>, Seq<char>)>),
    o: (Seq<char>, Result<(), Seq<char>>),
) -> (Seq<Seq<char>>, Seq<(Seq<char>, Seq<char>)>) {
    match o.1 {
        Ok(()) => (done.0.push(o.0), done.1),
        Err(e) => (done.0, done.1.push((o.0, e))),
    }
}

/// The moved ids and the failures after recording the outcomes in turn,
/// starting from an empty result.
pub open spec fn records_after(outs: Seq<(Seq<char>, Result<(), Seq<char>>)>) -> (Seq<Seq<char>>, Seq<(Seq<char>, Seq<char>)>)
    decreases outs.len(),
{
    if outs.len() == 0 {
        (Seq::empty(), Seq::empty())
    } else {
        record_step(records_after(outs.drop_last()), outs.last())
    }
}

/// The ids whose outcome is a success, in order.
pub open spec fn moved_ids(outs: Seq<(Seq<char>, Result<(), Seq<char>>)>) -> Seq<Seq<char>> {
    outs.filter(|o: (Seq<char>, Result<(), Seq<char>>)| o.1 is Ok).map_values(|o: (Seq<char>, Result<(), Seq<char>>)| o.0)
}

/// The ids whose outcome is an error, with the error, in order.
pub open spec fn failed_items(outs: Seq<(Seq<char>, Result<(), Seq<char>>)>) -> Seq<(Seq<char>, Seq<char>)> {
    outs.filter(|o: (Seq<char>, Result<(), Seq<char>>)| o.1 is Err).map_values(
        |o: (Seq<char>, Result<(), Seq<char>>)| (o.0, o.1->Err_0),
    )
}

/// Recording every item's outcome in turn, from an empty result, leaves the
/// ids that were moved, in order, and the items that failed with their
/// errors, in order; each item is counted once, on one side.
pub proof fn law_records_in_order(outs: Seq<(Seq<char>, Result<(), Seq<char>>)>)
    ensures
        records_after(outs) == (moved_ids(outs), failed_items(outs)),
        moved_ids(outs).len() + failed_items(outs).len() == outs.len(),
    decreases outs.len(),
{
    reveal(Seq::filter);
    let ok = |o: (Seq<char>, Result<(), Seq<char>>)| o.1 is Ok;
    let bad = |o: (Seq<char>, Result<(), Seq<char>>)| o.1 is Err;
    if outs.len() > 0 {
        let rest = outs.drop_last();
        law_records_in_order(rest);
        let o = outs.last();
        assert(outs.filter(ok) == if ok(o) { rest.filter(ok).push(o) } else { rest.filter(ok) });
        assert(outs.filter(bad) == if bad(o) { rest.filter(bad).push(o) } else { rest.filter(bad) });
        match o.1 {
            Ok(()) => {
                assert(moved_ids(outs) == moved_ids(rest).push(o.0));
                assert(failed_items(outs) == failed_items(rest));
            },
            Err(e) => {
                assert(moved_ids(outs) == moved_ids(rest));
                assert(failed_items(outs) == failed_items(rest).push((o.0, e)));
            },
        }
    } else {
        assert(moved_ids(outs) == Seq::<Seq<char>>::empty());
        assert(failed_items(outs) == Seq::<(Seq<char>, Seq<char>)>::empty());
    }
}

impl OneDriveDeleteResult {
    /// Nothing moved, nothing failed.
    pub fn new() -> (r: OneDriveDeleteResult)
        ensures
            r.deleted_ids@.len() == 0,
            r.failures@.len() == 0,
            (strings_view(r.deleted_ids@), failures_view(r.failures@)) == records_after(Seq::empty()),
    {
        OneDriveDeleteResult { deleted_ids: Vec::new(), failures: Vec::new() }
    }

    /// Records the outcome of one move: the id joins the moved ones, or a
    /// failure with the error is added.
    pub fn record(&mut self, item_id: String, outcome: Result<(), String>)
        ensures
            match outcome {
                Ok(()) => strings_view(final(self).deleted_ids@) == strings_view(old(self).deleted_ids@).push(item_id@)
                    && failures_view(final(self).failures@) == failures_view(old(self).failures@),
                Err(e) => strings_view(final(self).deleted_ids@) == strings_view(old(self).deleted_ids@)
                    && failures_view(final(self).failures@) == failures_view(old(self).failures@).push((item_id@, e@)),
            },
            (strings_view(final(self).deleted_ids@), failures_view(final(self).failures@)) == record_step(
                (strings_view(old(self).deleted_ids@), failures_view(old(self).failures@)),
                (item_id@, match outcome {
                    Ok(()) => Ok(()),
                    Err(e) => Err(e@),
                }),
            ),
    {
        let ghost d0 = strings_view(self.deleted_ids@);
        let ghost f0 = failures_view(self.failures@);
        let ghost id = item_id@;
        match outcome {
            Ok(()) => {
                self.deleted_ids.push(item_id);
                assert(strings_view(self.deleted_ids@) == d0.push(id));
            },
            Err(message) => {
                let ghost m = message@;
                self.failures.push(OneDriveDeleteFailure { item_id, message });
                assert(failures_view(self.failures@) == f0.push((id, m)));
            },
        }
    }
}

// ---------------------------------------------------------------------
// Refreshing one item
// ---------------------------------------------------------------------

/// Whether a single item can be refreshed from the cache: a finished scan
/// must have left a cache holding the item.
pub fn check_refresh_cache(cache: &Option<OneDriveCache>, item_id: &str) -> (r: Result<(), String>)
    requires
        cache matches Some(c) ==> c.items.wf(),
    ensures
        cache is None ==> (r matches Err(e) && e@ == "Complete a OneDrive scan before refreshing an individual item."@),
        cache matches Some(c) && c.delta_link@.len() == 0 ==> (r matches Err(e)
            && e@ == "Complete the current OneDrive scan before refreshing an individual item."@),
        cache matches Some(c) && c.delta_link@.len() > 0 && !crate::cloud_items::has_id(c.items@, item_id@)
            ==> (r matches Err(e) && e@ == "The selected OneDrive item is not present in the cache."@),
        r is Ok <==> (cache matches Some(c) && c.delta_link@.len() > 0 && crate::cloud_items::has_id(c.items@, item_id@)),
{
    match cache {
        None => Err(to_owned_string("Complete a OneDrive scan before refreshing an individual item.")),
        Some(c) => {
            if c.delta_link.as_str().is_empty() {
                return Err(to_owned_string("Complete the current OneDrive scan before refreshing an individual item."));
            }
            if !c.items.contains_key(item_id) {
                return Err(to_owned_string("The selected OneDrive item is not present in the cache."));
            }
            Ok(())
        },
    }
}

/// Replaces the cached item and everything below it with what was just
/// read of it; says whether it is a folder, whose children are to be read.
pub fn refresh_selected(cache: &mut OneDriveCache, item_id: &str, selected: GraphItem) -> (r: bool)
    requires
        old(cache).items.wf(),
    ensures
        r == selected.folder,
        final(cache).items.wf(),
        final(cache).items@ == apply_delta(without_subtree(old(cache).items@, item_id@), selected),
        same_header(*final(cache), *old(cache)),
{
    let folder = selected.folder;
    remove_cached_subtree(cache, item_id);
    apply_delta_item(cache, selected);
    folder
}

pub open spec fn folder_ids(items: Seq<GraphItem>) -> Seq<Seq<char>>
    decreases items.len(),
{
    if items.len() == 0 {
        Seq::empty()
    } else {
        let rest = folder_ids(items.drop_last());
        if items.last().folder {
            rest.push(items.last().id@)
        } else {
            rest
        }
    }
}

/// Applies a page of a folder's children to the cache and queues the
/// subfolders, in order, to be read in turn.
pub fn absorb_children(cache: &mut OneDriveCache, folders: &mut Vec<String>, items: Vec<GraphItem>)
    requires
        old(cache).items.wf(),
    ensures
        final(cache).items.wf(),
        final(cache).items@ == apply_deltas(old(cache).items@, items@),
        strings_view(final(folders)@) == strings_view(old(folders)@) + folder_ids(items@),
        same_header(*final(cache), *old(cache)),
{
    let ghost items0 = cache.items@;
    let ghost q0 = strings_view(folders@);
    let ghost start = *cache;
    let n = items.len();
    for k in 0..n
        invariant
            n == items@.len(),
            cache.items.wf(),
            cache.items@ == apply_deltas(items0, items@.take(k as int)),
            strings_view(folders@) == q0 + folder_ids(items@.take(k as int)),
            same_header(*cache, start),
    {
        let item = items[k].duplicate();
        assert(items@.take(k + 1).drop_last() == items@.take(k as int));
        assert(items@.take(k + 1).last() == item);
        if item.folder {
            let ghost before = strings_view(folders@);
            folders.push(item.id.clone());
            assert(strings_view(folders@) == before.push(item.id@));
        }
        apply_delta_item(cache, item);
    }
    assert(items@.take(n as int) == items@);
}

// ---------------------------------------------------------------------
// Sign-in
// ---------------------------------------------------------------------

/// Asks the sign-in in progress to stop.
pub fn cancel_connection(flag: &mut OAuthCancellation)
    ensures
        final(flag).cancelled,
{
    flag.cancel();
}

/// The error that ends a sign-in that was cancelled.
pub fn check_connection(flag: &OAuthCancellation) -> (r: Result<(), String>)
    ensures
        r is Ok <==> !flag.cancelled,
        r matches Err(e) ==> e@ == "OneDrive connection cancelled."@,
{
    if flag.cancelled {
        Err(to_owned_string("OneDrive connection cancelled."))
    } else {
        Ok(())
    }
}

/// The page that answers the sign-in callback.
pub open spec fn callback_page(title: Seq<char>, message: Seq<char>) -> Seq<char> {
    html_response(
        "<!doctype html><meta charset=\"utf-8\"><title>"@ + title
            + "</title><style>body{font:16px system-ui;background:#0f172a;color:#e2e8f0;display:grid;place-items:center;height:100vh;margin:0}main{text-align:center}h1{font-size:24px}</style><main><h1>"@
            + title + "</h1><p>"@ + message + "</p></main>"@,
    )
}

pub fn callback_page_of(title: &str, message: &str) -> (r: String)
    ensures
        r@ == callback_page(title@, message@),
{
    let mut body = to_owned_string("<!doctype html><meta charset=\"utf-8\"><title>");
    push_str(&mut body, title);
    push_str(
        &mut body,
        "</title><style>body{font:16px system-ui;background:#0f172a;color:#e2e8f0;display:grid;place-items:center;height:100vh;margin:0}main{text-align:center}h1{font-size:24px}</style><main><h1>",
    );
    push_str(&mut body, title);
    push_str(&mut body, "</h1><p>");
    push_str(&mut body, message);
    push_str(&mut body, "</p></main>");
    html_response_of(body)
}

pub open spec fn close_tab_message() -> Seq<char> {
    "You can close this browser tab and return to DuckDisk."@
}

/// What the sign-in callback request decides, given the outcome of
/// parsing its target: an `error` parameter cancels (its description, or
/// else the error, is reported, and a page says so); the `state` must be
/// the expected one and a `code` must be present (no page is sent
/// otherwise); the code completes the sign-in with a page saying so.
pub open spec fn callback_decision(
    target: Option<Seq<char>>,
    parsed: Result<Seq<(Seq<char>, Seq<char>)>, Seq<char>>,
    expected_state: Seq<char>,
) -> (Option<Seq<char>>, Result<Seq<char>, Seq<char>>) {
    match target {
        None => (None, Err("Invalid OAuth callback"@)),
        Some(_) => match parsed {
            Err(e) => (None, Err(e)),
            Ok(pairs) => match param(pairs, "error"@) {
                Some(err) => (
                    Some(callback_page("OneDrive connection cancelled"@, close_tab_message())),
                    Err(match param(pairs, "error_description"@) {
                        Some(d) => d,
                        None => err,
                    }),
                ),
                None => if param(pairs, "state"@) != Some(expected_state) {
                    (None, Err("Microsoft sign-in state did not match"@))
                } else {
                    match param(pairs, "code"@) {
                        None => (None, Err("Microsoft sign-in returned no authorization code"@)),
                        Some(code) => (Some(callback_page("OneDrive connected"@, close_tab_message())), Ok(code)),
                    }
                },
            },
        },
    }
}

/// The request target of the callback: the second word of its first line.
pub open spec fn callback_target(request: Seq<char>) -> Option<Seq<char>> {
    nth_word(first_line(request), 1)
}

pub open spec fn reply_view(r: CallbackReply) -> (Option<Seq<char>>, Result<Seq<char>, Seq<char>>) {
    (
        match r.response {
            Some(p) => Some(p@),
            None => None,
        },
        match r.result {
            Ok(c) => Ok(c@),
            Err(e) => Err(e@),
        },
    )
}

/// Reads the browser's callback request: the page to answer with, if any,
/// and the authorization code or the error.
pub fn evaluate_callback(request: &str, expected_state: &str) -> (r: CallbackReply)
    ensures
        reply_view(r) == callback_decision(
            callback_target(request@),
            match callback_target(request@) {
                Some(t) => callback_params("http://localhost"@, t),
                None => Err("Invalid OAuth callback"@),
            },
            expected_state@,
        ),
{
    let c = chars_of(request);
    let line = first_line_of(c.as_slice());
    let target = match nth_word_of(line.as_slice(), 1) {
        Some(t) => t,
        None => {
            return CallbackReply { response: None, result: Err(to_owned_string("Invalid OAuth callback")) };
        },
    };
    let pairs = match callback_pairs("http://localhost", target.as_slice()) {
        Ok(p) => p,
        Err(e) => {
            return CallbackReply { response: None, result: Err(e) };
        },
    };
    match param_value(&pairs, "error") {
        Some(err) => {
            let reported = match param_value(&pairs, "error_description") {
                Some(d) => d,
                None => err,
            };
            let page = callback_page_of("OneDrive connection cancelled", "You can close this browser tab and return to DuckDisk.");
            return CallbackReply { response: Some(page), result: Err(reported) };
        },
        None => {},
    }
    let state_ok = match param_value(&pairs, "state") {
        Some(st) => {
            let e = to_owned_string(expected_state);
            st == e
        },
        None => false,
    };
    if !state_ok {
        return CallbackReply { response: None, result: Err(to_owned_string("Microsoft sign-in state did not match")) };
    }
    match param_value(&pairs, "code") {
        None => CallbackReply {
            response: None,
            result: Err(to_owned_string("Microsoft sign-in returned no authorization code")),
        },
        Some(code) => {
            let page = callback_page_of("OneDrive connected", "You can close this browser tab and return to DuckDisk.");
            CallbackReply { response: Some(page), result: Ok(code) }
        },
    }
}

// ---------------------------------------------------------------------
// Scan results
// ---------------------------------------------------------------------

/// Whether a finished scan's error is reported: a cancelled scan ends
/// silently.
pub fn failure_reported(error: &str) -> (r: bool)
    ensures
        r == (error@ != SCAN_CANCELLED_MESSAGE@),
{
    let e = to_owned_string(error);
    let c = to_owned_string(SCAN_CANCELLED_MESSAGE);
    !(e == c)
}

/// The drive that a scan reads must still be the saved account.
pub fn check_drive_matches(drive: &GraphDrive, account_id: &str) -> (r: Result<(), String>)
    ensures
        r is Ok <==> drive.id@ == account_id@,
        r matches Err(e) ==> e@ == "The saved Microsoft account no longer matches this OneDrive"@,
{
    let a = to_owned_string(account_id);
    if drive.id == a {
        Ok(())
    } else {
        Err(to_owned_string("The saved Microsoft account no longer matches this OneDrive"))
    }
}

/// The saved account that a finished scan is reported under.
pub fn account_for_result(accounts: &Vec<OneDriveAccount>, account_id: &str) -> (r: Result<usize, String>)
    ensures
        match r {
            Ok(k) => k < accounts@.len() && accounts@[k as int].id@ == account_id@
                && forall|m: int| 0 <= m < k ==> accounts@[m].id@ != account_id@,
            Err(e) => !has_account(accounts_view(accounts@), account_id@) && e@ == "OneDrive account metadata is missing"@,
        },
{
    let id = to_owned_string(account_id);
    match find_account(accounts, &id) {
        Some(k) => Ok(k),
        None => Err(to_owned_string("OneDrive account metadata is missing")),
    }
}

/// What replaying a scan in progress reports: its phase event, if it has
/// reached one, and its progress.
pub fn replay_plan(st: ScanState) -> (r: (Option<&'static str>, u64, u64))
    ensures
        r.1 == st.items,
        r.2 == st.total,
        match st.phase {
            Some(p) => r.0 matches Some(e) && e@ == (match p {
                ScanPhase::Full => "onedrive_scan_full"@,
                ScanPhase::Incremental => "onedrive_scan_incremental"@,
                ScanPhase::Finalizing => "onedrive_scan_finalizing"@,
            }),
            None => r.0 is None,
        },
{
    let event = match st.phase {
        Some(p) => Some(scan_phase_event(p)),
        None => None,
    };
    (event, st.items, st.total)
}


// ---------------------------------------------------------------------
// Laws
// ---------------------------------------------------------------------

/// What a delta query reports is what the cache then holds for the id: a
/// deleted item is gone, any other is stored as `delta_entry` reads it,
/// and no other id changes.
pub proof fn law_delta_applied(s: Seq<ItemView>, item: GraphItem)
    requires
        crate::cloud_items::ids_distinct(s),
    ensures
        crate::cloud_items::ids_distinct(apply_delta(s, item)),
        crate::cloud_items::as_map(apply_delta(s, item)) == (if item.deleted {
            crate::cloud_items::as_map(s).remove(item.id@)
        } else {
            crate::cloud_items::as_map(s).insert(item.id@, delta_entry(item))
        }),
{
    if item.deleted {
        crate::cloud_items::law_remove_item(s, item.id@);
    } else {
        crate::cloud_items::law_insert_item(s, delta_entry(item));
    }
}

proof fn lemma_first_account(s: Seq<AccountView>, id: Seq<char>)
    requires
        has_account(s, id),
    ensures
        exists|k: int| 0 <= k < s.len() && s[k].id == id && forall|m: int| 0 <= m < k ==> s[m].id != id,
    decreases s.len(),
{
    if s[0].id != id {
        let t = s.drop_first();
        let j = choose|j: int| 0 <= j < s.len() && s[j].id == id;
        assert(t[j - 1].id == id);
        lemma_first_account(t, id);
        let k = choose|k: int| 0 <= k < t.len() && t[k].id == id && forall|m: int| 0 <= m < k ==> t[m].id != id;
        assert(s[k + 1].id == id);
        assert forall|m: int| 0 <= m < k + 1 implies s[m].id != id by {
            if m > 0 {
                assert(s[m] == t[m - 1]);
            }
        }
    } else {
        assert(forall|m: int| 0 <= m < 0 ==> s[m].id != id);
    }
}

/// After an account is saved, looking it up by its id finds it: it is at
/// the first position with that id. The list grows only when the id was
/// new, and the accounts with other ids stay where they were.
pub proof fn law_upsert_account(s: Seq<AccountView>, a: AccountView)
    ensures
        ({
            let t = upserted(s, a);
            &&& exists|k: int| 0 <= k < t.len() && t[k] == a && forall|m: int| 0 <= m < k ==> t[m].id != a.id
            &&& t.len() == s.len() + (if has_account(s, a.id) { 0int } else { 1int })
            &&& forall|m: int| 0 <= m < s.len() && s[m].id != a.id ==> #[trigger] t[m] == s[m]
        }),
{
    let t = upserted(s, a);
    if has_account(s, a.id) {
        lemma_first_account(s, a.id);
        let k = first_account(s, a.id);
        assert(t[k] == a);
        assert(forall|m: int| 0 <= m < k ==> t[m].id != a.id);
    } else {
        let k = s.len() as int;
        assert(t[k] == a);
        assert forall|m: int| 0 <= m < k implies t[m].id != a.id by {
            assert(t[m] == s[m]);
        }
    }
}

/// After an account is forgotten, no account has its id.
pub proof fn law_remove_account(s: Seq<AccountView>, id: Seq<char>)
    ensures
        !has_account(s.filter(|a: AccountView| a.id != id), id),
{
    let t = s.filter(|a: AccountView| a.id != id);
    if has_account(t, id) {
        let k = choose|k: int| 0 <= k < t.len() && t[k].id == id;
        s.lemma_filter_pred(|a: AccountView| a.id != id, k);
    }
}

/// The sign-in completes only with the state that DuckDisk sent and no
/// error from the browser, and then with the code the callback carries.
pub proof fn law_code_needs_state(target: Option<Seq<char>>, parsed: Result<Seq<(Seq<char>, Seq<char>)>, Seq<char>>, expected_state: Seq<char>)
    ensures
        callback_decision(target, parsed, expected_state).1 is Ok ==> (parsed matches Ok(pairs)
            && param(pairs, "state"@) == Some(expected_state) && param(pairs, "error"@) is None
            && callback_decision(target, parsed, expected_state).1 == Ok::<Seq<char>, Seq<char>>(param(pairs, "code"@)->Some_0)),
{
}

} // verus!
