use duckdisk::cloud_items::{CachedItem, CloudItems};
use duckdisk::oauth::OAuthCancellation;
use duckdisk::onedrive::{CACHE_VERSION, DeleteStep, DeltaErrorAction, DeltaPage, GraphDrive, GraphItem, GraphOwner, GraphQuota, GraphStep, GraphUser, OneDriveAccount, OneDriveCache, OneDriveDeleteResult, PageOutcome, ParentReference, SCAN_CANCELLED_MESSAGE, absorb_children, account_for_result, account_from_drive, apply_delta_item, begin_delta_scan, build_item_tree, cache_usable, cancel_connection, check_connection, check_delete_permission, check_delete_request, check_drive_matches, check_refresh_cache, children_url, delete_send_failure, delete_step, drive_info_url, drive_item_url, empty_cache, ensure_scan_active, evaluate_callback, failure_reported, forget_deleted, get_state, graph_error_message, graph_get_step, graph_rejection, initial_delta_url, is_connected, needs_reauth, opening_phase, record_scan_phase, record_scan_status, refresh_selected, remove_account, replay_plan, required_client_id, scan_phase_event, start_refresh, start_scan, stop_scan, upsert_account};
use duckdisk::scan_table::{ScanPhase, ScanTable};

fn entry(id: &str, parent_id: Option<&str>, name: &str, size: u64, folder: bool) -> CachedItem {
    CachedItem {
        id: id.to_string(),
        parent_id: parent_id.map(str::to_string),
        name: name.to_string(),
        size,
        is_folder: folder,
    }
}

fn cache_of(items: Vec<CachedItem>, delta_link: &str) -> OneDriveCache {
    let mut table = CloudItems::new();
    for item in items {
        table.insert(item);
    }
    OneDriveCache {
        version: CACHE_VERSION.to_string(),
        account_id: "drive".to_string(),
        root_id: "root".to_string(),
        delta_link: delta_link.to_string(),
        next_link: String::new(),
        checkpoint_items: 0,
        checkpoint_bytes: 0,
        items: table,
    }
}

fn graph_item(id: &str, parent: Option<&str>, size: Option<u64>, folder: bool, deleted: bool) -> GraphItem {
    GraphItem {
        id: id.to_string(),
        name: Some(format!("{id}.name")),
        size,
        parent_reference: parent.map(|p| ParentReference { id: Some(p.to_string()) }),
        folder,
        deleted,
    }
}

fn account(id: &str, name: &str) -> OneDriveAccount {
    OneDriveAccount {
        id: id.to_string(),
        name: name.to_string(),
        drive_type: "personal".to_string(),
        total_space: 10,
        used_space: 4,
        available_space: 6,
    }
}

#[test]
fn onedrive_client_id_is_trimmed_or_missing() {
    assert_eq!(required_client_id("  abc \n").unwrap(), "abc");
    assert_eq!(
        required_client_id("   ").unwrap_err(),
        "OneDrive is not configured in this build. Set DUCKDISK_ONEDRIVE_CLIENT_ID and rebuild."
    );
    assert!(get_state("id", Vec::new()).configured);
    assert!(!get_state(" ", Vec::new()).configured);
}

#[test]
fn onedrive_account_defaults_fill_missing_drive_fields() {
    let bare = GraphDrive { id: "d".to_string(), drive_type: None, owner: None, quota: None };
    let a = account_from_drive(&bare);
    assert_eq!(a.name, "Microsoft account");
    assert_eq!(a.drive_type, "OneDrive");
    assert_eq!((a.total_space, a.used_space, a.available_space), (0, 0, 0));

    let partial = GraphDrive {
        id: "d".to_string(),
        drive_type: Some("business".to_string()),
        owner: Some(GraphOwner { user: Some(GraphUser { display_name: Some("Qi".to_string()) }) }),
        quota: Some(GraphQuota { total: Some(100), used: None, remaining: Some(30) }),
    };
    let a = account_from_drive(&partial);
    assert_eq!(a.name, "Qi");
    assert_eq!(a.drive_type, "business");
    assert_eq!((a.total_space, a.used_space, a.available_space), (100, 70, 30));

    let no_remaining = GraphDrive {
        id: "d".to_string(),
        drive_type: None,
        owner: None,
        quota: Some(GraphQuota { total: Some(100), used: Some(120), remaining: None }),
    };
    let a = account_from_drive(&no_remaining);
    assert_eq!((a.total_space, a.used_space, a.available_space), (100, 120, 0));
}

#[test]
fn saving_an_account_replaces_or_appends() {
    let mut accounts = vec![account("a", "A"), account("b", "B")];
    upsert_account(&mut accounts, account("b", "B2"));
    assert_eq!(accounts.len(), 2);
    assert_eq!(accounts[1].name, "B2");
    upsert_account(&mut accounts, account("c", "C"));
    assert_eq!(accounts.len(), 3);
    assert_eq!(accounts[2].id, "c");
    assert!(is_connected(&accounts, "c"));
    remove_account(&mut accounts, "b");
    assert_eq!(accounts.iter().map(|a| a.id.as_str()).collect::<Vec<_>>(), vec!["a", "c"]);
    assert!(!is_connected(&accounts, "b"));
}

#[test]
fn onedrive_scans_register_replay_and_stop() {
    let accounts = vec![account("drive", "Qi")];
    let mut scans = ScanTable::new();
    assert_eq!(
        start_scan(&accounts, &mut scans, "other").unwrap_err(),
        "OneDrive account is not connected"
    );
    assert!(start_scan(&accounts, &mut scans, "drive").unwrap().is_none());
    assert!(ensure_scan_active(&scans, "drive").is_ok());
    record_scan_status(&mut scans, "drive", 5, 500);
    record_scan_phase(&mut scans, "drive", ScanPhase::Incremental);
    let replay = start_scan(&accounts, &mut scans, "drive").unwrap().unwrap();
    let (event, items, total) = replay_plan(replay);
    assert_eq!(event, Some("onedrive_scan_incremental"));
    assert_eq!((items, total), (5, 500));
    assert_eq!(
        start_refresh(&accounts, &mut scans, "drive").unwrap_err(),
        "Wait for the current OneDrive scan to finish before refreshing this item."
    );
    stop_scan(&mut scans, "drive");
    assert_eq!(ensure_scan_active(&scans, "drive").unwrap_err(), SCAN_CANCELLED_MESSAGE);
    assert_eq!(ensure_scan_active(&scans, "never").unwrap_err(), SCAN_CANCELLED_MESSAGE);
    assert!(!failure_reported(SCAN_CANCELLED_MESSAGE));
    assert!(failure_reported("boom"));
}

#[test]
fn onedrive_urls_are_built_from_the_graph_root() {
    assert_eq!(
        initial_delta_url(),
        "https://graph.microsoft.com/v1.0/me/drive/root/delta?$select=id,name,size,parentReference,folder,file,deleted"
    );
    assert_eq!(drive_info_url(), "https://graph.microsoft.com/v1.0/me/drive?$select=id,driveType,owner,quota");
    let url = drive_item_url("acc", "item 1").unwrap();
    assert!(url.starts_with("https://graph.microsoft.com/v1.0/"));
    assert!(url.ends_with("drives/acc/items/item%201"));
    let children = children_url("acc", "f").unwrap();
    assert!(children.ends_with("drives/acc/items/f/children?$select=id,name,size,parentReference,folder,file&$top=200"));
}

#[test]
fn graph_errors_keep_only_a_readable_message() {
    assert_eq!(graph_error_message(404, "not json"), "Microsoft Graph returned 404 Not Found");
    assert_eq!(
        graph_error_message(500, r#"{"error":{"message":"   "}}"#),
        "Microsoft Graph returned 500 Internal Server Error"
    );
    assert_eq!(
        graph_rejection(403, "denied"),
        "Microsoft Graph returned 403 Forbidden: denied"
    );
}

#[test]
fn graph_reads_retry_when_throttled() {
    assert!(matches!(graph_get_step(200, 0, None), GraphStep::Accept));
    assert!(matches!(graph_get_step(429, 0, Some("7")), GraphStep::Retry { attempts: 1, delay_secs: 7 }));
    assert!(matches!(graph_get_step(503, 2, Some("120")), GraphStep::Retry { attempts: 3, delay_secs: 60 }));
    assert!(matches!(graph_get_step(503, 2, Some("soon")), GraphStep::Retry { attempts: 3, delay_secs: 8 }));
    match graph_get_step(429, 5, None) {
        GraphStep::Unavailable(m) => assert_eq!(m, "Microsoft Graph remained unavailable (429 Too Many Requests)"),
        _ => panic!("expected unavailable"),
    }
    assert!(matches!(graph_get_step(404, 0, None), GraphStep::Reject));
}

#[test]
fn graph_deletes_finish_retry_or_fail() {
    assert!(matches!(delete_step(204, 0, None), DeleteStep::Done));
    assert!(matches!(delete_step(404, 0, None), DeleteStep::Done));
    assert!(matches!(delete_step(423, 0, None), DeleteStep::Retry { attempts: 1, delay_secs: 2 }));
    assert!(matches!(delete_step(423, 5, None), DeleteStep::Fail));
    assert!(matches!(delete_step(400, 0, None), DeleteStep::Fail));
    assert_eq!(delete_send_failure(0, true, "x").unwrap(), (1, 2));
    assert_eq!(delete_send_failure(4, true, "x").unwrap(), (5, 30));
    assert_eq!(
        delete_send_failure(5, true, "refused").unwrap_err(),
        "Could not reach Microsoft Graph while moving the item: refused"
    );
}

#[test]
fn delta_scan_starts_from_the_right_page() {
    let mut fresh = cache_of(vec![entry("root", None, "OneDrive", 0, true)], "");
    let (scan, write_now) = begin_delta_scan(&mut fresh);
    assert!(write_now);
    assert_eq!(scan.next_url, initial_delta_url());
    assert_eq!(fresh.next_link, initial_delta_url());
    assert!(!scan.can_restart_full);

    let mut resumed = cache_of(vec![], "delta-link");
    resumed.next_link = "next-page".to_string();
    resumed.checkpoint_items = 7;
    resumed.checkpoint_bytes = 70;
    let (scan, write_now) = begin_delta_scan(&mut resumed);
    assert!(!write_now);
    assert_eq!(scan.next_url, "next-page");
    assert_eq!((scan.changed_items, scan.changed_bytes, scan.last_checkpoint_items), (7, 70, 7));
    assert!(scan.can_restart_full);
    assert!(matches!(opening_phase(&Some(resumed)), ScanPhase::Incremental));
    assert!(matches!(opening_phase(&None), ScanPhase::Full));
}

#[test]
fn delta_scan_errors_renew_restart_or_stop() {
    let mut cache = cache_of(vec![], "delta-link");
    let (mut scan, _) = begin_delta_scan(&mut cache);
    assert!(matches!(scan.on_error("Microsoft Graph returned 401 Unauthorized"), DeltaErrorAction::RefreshToken));
    match scan.on_error("Microsoft Graph returned 401 Unauthorized") {
        DeltaErrorAction::Fail(m) => {
            assert_eq!(m, "Microsoft sign-in expired during the scan. Reconnect OneDrive and try again.")
        }
        _ => panic!("expected failure"),
    }
    assert!(matches!(scan.on_error("Microsoft Graph returned 410 Gone"), DeltaErrorAction::RestartFull));
    scan.restart_full(&mut cache);
    assert_eq!(scan.next_url, initial_delta_url());
    assert_eq!(cache.next_link, initial_delta_url());
    match scan.on_error("resyncRequired") {
        DeltaErrorAction::Fail(m) => {
            assert_eq!(m, "OneDrive could not restart its change index. Use Clean Cache & Rescan.")
        }
        _ => panic!("expected failure"),
    }
    match scan.on_error("disk full") {
        DeltaErrorAction::Fail(m) => assert_eq!(m, "disk full"),
        _ => panic!("expected failure"),
    }
}

#[test]
fn delta_pages_count_apply_and_checkpoint() {
    let mut cache = cache_of(vec![entry("root", None, "OneDrive", 0, true)], "");
    let (mut scan, _) = begin_delta_scan(&mut cache);
    let page = DeltaPage {
        value: vec![
            graph_item("a", Some("root"), Some(10), false, false),
            graph_item("f", Some("root"), Some(99), true, false),
            graph_item("gone", None, Some(5), false, true),
        ],
        next_link: Some("page-2".to_string()),
        delta_link: None,
    };
    match scan.apply_delta_page(&mut cache, page).unwrap() {
        PageOutcome::More { write_checkpoint } => assert!(!write_checkpoint),
        PageOutcome::Finished => panic!("expected more pages"),
    }
    assert_eq!((scan.changed_items, scan.changed_bytes), (3, 10));
    assert_eq!(scan.next_url, "page-2");
    assert_eq!((cache.checkpoint_items, cache.checkpoint_bytes), (3, 10));
    assert!(cache.items.contains_key("a") && cache.items.contains_key("f"));
    assert!(!cache.items.contains_key("gone"));

    scan.changed_items = 19_999;
    let page = DeltaPage { value: vec![graph_item("b", Some("root"), None, false, false)], next_link: Some("p3".to_string()), delta_link: None };
    match scan.apply_delta_page(&mut cache, page).unwrap() {
        PageOutcome::More { write_checkpoint } => assert!(write_checkpoint),
        PageOutcome::Finished => panic!("expected more pages"),
    }
    assert_eq!(scan.last_checkpoint_items, 20_000);

    let last = DeltaPage { value: vec![], next_link: None, delta_link: Some("token".to_string()) };
    assert!(matches!(scan.apply_delta_page(&mut cache, last).unwrap(), PageOutcome::Finished));
    assert_eq!(cache.delta_link, "token");
    assert!(cache.next_link.is_empty());
    assert_eq!((cache.checkpoint_items, cache.checkpoint_bytes), (0, 0));

    let broken = DeltaPage { value: vec![], next_link: None, delta_link: None };
    assert_eq!(
        scan.apply_delta_page(&mut cache, broken).unwrap_err(),
        "OneDrive scan ended without a delta token"
    );
}

#[test]
fn delta_changes_are_read_back_from_the_cache() {
    let mut cache = cache_of(vec![entry("root", None, "OneDrive", 0, true)], "d");
    apply_delta_item(&mut cache, graph_item("x", Some("root"), None, false, false));
    let stored = cache.items.get("x").unwrap();
    assert_eq!(stored.name, "x.name");
    assert_eq!(stored.size, 0);
    assert_eq!(stored.parent_id.as_deref(), Some("root"));
    let mut unnamed = graph_item("x", None, Some(3), true, false);
    unnamed.name = None;
    apply_delta_item(&mut cache, unnamed);
    let stored = cache.items.get("x").unwrap();
    assert_eq!(stored.name, "(unnamed)");
    assert!(stored.is_folder);
    assert_eq!(cache.items.len(), 2);
}

#[test]
fn onedrive_delete_requests_are_checked_and_recorded() {
    let accounts = vec![account("drive", "Qi")];
    assert_eq!(check_delete_request(&accounts, "drive", 0).unwrap(), false);
    assert_eq!(check_delete_request(&accounts, "drive", 2).unwrap(), true);
    assert_eq!(
        check_delete_request(&accounts, "nope", 2).unwrap_err(),
        "OneDrive account is not connected"
    );
    assert_eq!(
        check_delete_permission(false).unwrap_err(),
        "Reconnect OneDrive from All Disks to grant permission to move items to the Recycle Bin."
    );
    assert!(needs_reauth(&Err("401 Unauthorized".to_string())));
    assert!(!needs_reauth(&Ok(())));
    let mut result = OneDriveDeleteResult::new();
    result.record("a".to_string(), Ok(()));
    result.record("b".to_string(), Err("locked".to_string()));
    assert_eq!(result.deleted_ids, vec!["a".to_string()]);
    assert_eq!(result.failures[0].item_id, "b");
    assert_eq!(result.failures[0].message, "locked");

    let mut cache = cache_of(
        vec![
            entry("root", None, "root", 0, true),
            entry("a", Some("root"), "a", 0, true),
            entry("a1", Some("a"), "a1", 1, false),
            entry("b", Some("root"), "b", 2, false),
        ],
        "d",
    );
    forget_deleted(&mut cache, &result.deleted_ids);
    assert!(!cache.items.contains_key("a") && !cache.items.contains_key("a1"));
    assert!(cache.items.contains_key("b"));
}

#[test]
fn onedrive_refresh_needs_a_finished_scan_with_the_item() {
    assert_eq!(
        check_refresh_cache(&None, "x").unwrap_err(),
        "Complete a OneDrive scan before refreshing an individual item."
    );
    let unfinished = cache_of(vec![entry("x", None, "x", 0, false)], "");
    assert_eq!(
        check_refresh_cache(&Some(unfinished), "x").unwrap_err(),
        "Complete the current OneDrive scan before refreshing an individual item."
    );
    let finished = cache_of(vec![entry("root", None, "root", 0, true)], "d");
    assert_eq!(
        check_refresh_cache(&Some(finished), "x").unwrap_err(),
        "The selected OneDrive item is not present in the cache."
    );

    let mut cache = cache_of(
        vec![
            entry("root", None, "root", 0, true),
            entry("f", Some("root"), "f", 0, true),
            entry("old", Some("f"), "old", 5, false),
        ],
        "d",
    );
    assert!(check_refresh_cache(&Some(cache_of(vec![entry("f", None, "f", 0, true)], "d")), "f").is_ok());
    assert!(refresh_selected(&mut cache, "f", graph_item("f", Some("root"), None, true, false)));
    assert!(!cache.items.contains_key("old"));
    let mut folders: Vec<String> = Vec::new();
    absorb_children(
        &mut cache,
        &mut folders,
        vec![graph_item("sub", Some("f"), None, true, false), graph_item("leaf", Some("f"), Some(9), false, false)],
    );
    assert_eq!(folders, vec!["sub".to_string()]);
    let tree = build_item_tree(&cache, "f").unwrap();
    assert_eq!(tree.size, 9);
    assert_eq!(
        build_item_tree(&cache, "missing").unwrap_err(),
        "The refreshed OneDrive item could not be rebuilt."
    );
}

#[test]
fn onedrive_callback_accepts_only_the_expected_state() {
    let ok = evaluate_callback("GET /?code=abc&state=s1 HTTP/1.1\r\nHost: localhost\r\n\r\n", "s1");
    assert_eq!(ok.result.unwrap(), "abc");
    let page = ok.response.unwrap();
    assert!(page.starts_with("HTTP/1.1 200 OK\r\n"));
    assert!(page.contains("<h1>OneDrive connected</h1>"));

    let wrong = evaluate_callback("GET /?code=abc&state=other HTTP/1.1\r\n", "s1");
    assert!(wrong.response.is_none());
    assert_eq!(wrong.result.unwrap_err(), "Microsoft sign-in state did not match");

    let denied = evaluate_callback("GET /?error=access_denied&error_description=No%20thanks HTTP/1.1\r\n", "s1");
    assert_eq!(denied.result.unwrap_err(), "No thanks");
    assert!(denied.response.unwrap().contains("OneDrive connection cancelled"));

    let no_code = evaluate_callback("GET /?state=s1 HTTP/1.1\r\n", "s1");
    assert_eq!(no_code.result.unwrap_err(), "Microsoft sign-in returned no authorization code");

    let garbage = evaluate_callback("GET\r\n/?code=abc&state=s1", "s1");
    assert_eq!(garbage.result.unwrap_err(), "Invalid OAuth callback");
}

#[test]
fn onedrive_connection_can_be_cancelled() {
    let mut flag = OAuthCancellation::new();
    assert!(check_connection(&flag).is_ok());
    cancel_connection(&mut flag);
    assert_eq!(check_connection(&flag).unwrap_err(), "OneDrive connection cancelled.");
    flag.reset();
    assert!(check_connection(&flag).is_ok());
}

#[test]
fn onedrive_caches_and_drives_are_matched_to_the_account() {
    let cache = cache_of(vec![], "d");
    assert!(cache_usable(&cache, "drive"));
    assert!(!cache_usable(&cache, "other"));
    let empty = cache_of(vec![], "");
    assert!(!cache_usable(&empty, "drive"));
    let root = GraphItem { id: "r".to_string(), name: None, size: None, parent_reference: None, folder: true, deleted: false };
    let fresh = empty_cache("drive", root);
    assert_eq!(fresh.root_id, "r");
    assert_eq!(fresh.items.get("r").unwrap().name, "OneDrive");
    let drive = GraphDrive { id: "drive".to_string(), drive_type: None, owner: None, quota: None };
    assert!(check_drive_matches(&drive, "drive").is_ok());
    assert_eq!(
        check_drive_matches(&drive, "x").unwrap_err(),
        "The saved Microsoft account no longer matches this OneDrive"
    );
    let accounts = vec![account("a", "A"), account("drive", "Qi")];
    assert_eq!(account_for_result(&accounts, "drive").unwrap(), 1);
    assert_eq!(account_for_result(&accounts, "zzz").unwrap_err(), "OneDrive account metadata is missing");
    assert_eq!(scan_phase_event(ScanPhase::Finalizing), "onedrive_scan_finalizing");
}

#[test]
fn moves_are_recorded_in_order() {
    let mut result = OneDriveDeleteResult::new();
    result.record("a".to_string(), Err("busy".to_string()));
    result.record("b".to_string(), Ok(()));
    result.record("c".to_string(), Err("locked".to_string()));
    result.record("d".to_string(), Ok(()));
    assert_eq!(result.deleted_ids, vec!["b".to_string(), "d".to_string()]);
    let failed: Vec<(&str, &str)> =
        result.failures.iter().map(|f| (f.item_id.as_str(), f.message.as_str())).collect();
    assert_eq!(failed, vec![("a", "busy"), ("c", "locked")]);
}
