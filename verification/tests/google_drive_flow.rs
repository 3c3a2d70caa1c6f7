use duckdisk::cloud_items::{CachedItem, CloudItems};
use duckdisk::google_drive::{AboutResponse, CACHE_VERSION, DriveChange, DriveFile, FOLDER_MIME_TYPE, GoogleDriveAccount, GoogleDriveCache, GoogleUser, SCAN_CANCELLED_MESSAGE, StorageQuota, TrashStep, USER_CAP_MESSAGE, about_url, absorb_change_page, absorb_file_page, account_for_result, account_from_about, cache_usable, cached_item, callback_timeout_message, cancel_connection, change_page_end, check_connection, check_trash_request, confirm_trashed, ensure_scan_active, evaluate_callback, finished_cache, forget_deleted, full_listing_start, get_state, google_oauth_error_message, google_token_error_message, is_authentication_error, is_retryable_delete_status, is_token_expired, is_user_cap_error, required_setting, revoke_outcome, start_scan, stop_scan, trash_failure, trash_send_failure, trash_step, trash_url};
use duckdisk::oauth::OAuthCancellation;
use duckdisk::scan_table::ScanTable;

fn file(id: &str, parent: Option<&str>, mime: Option<&str>, size: Option<&str>, quota: Option<&str>) -> DriveFile {
    DriveFile {
        id: id.to_string(),
        name: Some(format!("{id}.txt")),
        mime_type: mime.map(str::to_string),
        size: size.map(str::to_string),
        quota_bytes_used: quota.map(str::to_string),
        parents: parent.map(|p| vec![p.to_string(), "second".to_string()]),
        trashed: Some(false),
    }
}

fn account(id: &str) -> GoogleDriveAccount {
    GoogleDriveAccount {
        id: id.to_string(),
        name: "Qi".to_string(),
        email: "qi@example.com".to_string(),
        total_space: 1,
        used_space: 0,
        available_space: 1,
    }
}

fn empty_cache() -> GoogleDriveCache {
    let mut items = CloudItems::new();
    items.insert(CachedItem { id: "root".to_string(), parent_id: None, name: "My Drive".to_string(), size: 0, is_folder: true });
    GoogleDriveCache {
        version: CACHE_VERSION.to_string(),
        account_id: "acc".to_string(),
        root_id: "root".to_string(),
        page_token: "t1".to_string(),
        items,
    }
}

#[test]
fn google_settings_and_accounts() {
    assert!(get_state("id", "secret", Vec::new()).configured);
    assert!(!get_state("id", "  ", Vec::new()).configured);
    assert_eq!(required_setting(" x ").unwrap(), "x");
    assert_eq!(required_setting("").unwrap_err(), "Google Drive is not configured in this build.");
    let about = AboutResponse {
        user: GoogleUser {
            display_name: "Qi".to_string(),
            email_address: "qi@example.com".to_string(),
            permission_id: "perm".to_string(),
        },
        storage_quota: StorageQuota { limit: Some("100".to_string()), usage_in_drive: Some("250".to_string()) },
    };
    let a = account_from_about(&about);
    assert_eq!(a.id, "perm");
    assert_eq!((a.total_space, a.used_space, a.available_space), (100, 250, 0));
    let unlimited = AboutResponse {
        user: about.user,
        storage_quota: StorageQuota { limit: None, usage_in_drive: Some("lots".to_string()) },
    };
    let a = account_from_about(&unlimited);
    assert_eq!((a.total_space, a.used_space, a.available_space), (0, 0, 0));
}

#[test]
fn google_scans_register_once_and_stop() {
    let accounts = vec![account("acc")];
    let mut scans = ScanTable::new();
    assert_eq!(start_scan(&accounts, &mut scans, "x").unwrap_err(), "Google Drive account is not connected");
    assert_eq!(start_scan(&accounts, &mut scans, "acc").unwrap(), true);
    assert_eq!(start_scan(&accounts, &mut scans, "acc").unwrap(), false);
    assert!(ensure_scan_active(&scans, "acc").is_ok());
    assert!(ensure_scan_active(&scans, "unknown").is_ok());
    stop_scan(&mut scans, "acc");
    assert_eq!(ensure_scan_active(&scans, "acc").unwrap_err(), SCAN_CANCELLED_MESSAGE);
    assert!(is_token_expired("Google Drive returned 410 Gone: {}"));
    assert!(!is_token_expired("410 gone"));
    assert_eq!(account_for_result(&accounts, "acc").unwrap(), 0);
    assert_eq!(account_for_result(&accounts, "b").unwrap_err(), "Google Drive account metadata is missing");
}

#[test]
fn drive_files_become_cache_entries() {
    let item = cached_item(file("f", Some("p"), Some(FOLDER_MIME_TYPE), None, None));
    assert!(item.is_folder);
    assert_eq!(item.parent_id.as_deref(), Some("p"));
    let item = cached_item(file("g", None, Some("text/plain"), None, Some("77")));
    assert_eq!(item.size, 77);
    assert!(!item.is_folder);
    assert!(item.parent_id.is_none());
    let item = cached_item(file("h", None, None, Some("abc"), Some("77")));
    assert_eq!(item.size, 0);
    let mut unnamed = file("u", None, None, Some("5"), None);
    unnamed.name = None;
    assert_eq!(cached_item(unnamed).name, "(unnamed)");
}

#[test]
fn google_listing_and_changes_update_the_cache() {
    let (root_id, mut items) = full_listing_start(file("root", None, Some(FOLDER_MIME_TYPE), None, None));
    assert_eq!(root_id, "root");
    let mut count = 0u64;
    let mut total = 0u64;
    absorb_file_page(
        &mut items,
        "root",
        vec![
            file("root", None, Some(FOLDER_MIME_TYPE), None, None),
            file("a", Some("root"), None, Some("10"), None),
            file("d", Some("root"), Some(FOLDER_MIME_TYPE), Some("99"), None),
        ],
        &mut count,
        &mut total,
    );
    assert_eq!((count, total), (2, 10));
    let mut cache = finished_cache("acc", root_id, "start".to_string(), items);
    assert_eq!(cache.page_token, "start");

    let mut trashed = file("a", Some("root"), None, Some("10"), None);
    trashed.trashed = Some(true);
    let changes = vec![
        DriveChange { file_id: "d".to_string(), removed: Some(true), file: None },
        DriveChange { file_id: "a".to_string(), removed: None, file: Some(trashed) },
        DriveChange { file_id: "n".to_string(), removed: Some(false), file: Some(file("n", Some("root"), None, Some("4"), None)) },
        DriveChange { file_id: "z".to_string(), removed: None, file: None },
    ];
    let mut count = 0u64;
    let mut total = 0u64;
    absorb_change_page(&mut cache, changes, &mut count, &mut total);
    assert_eq!((count, total), (4, 4));
    assert!(!cache.items.contains_key("d") && !cache.items.contains_key("a"));
    assert!(cache.items.contains_key("n"));
    assert_eq!(change_page_end(&mut cache, Some("next".to_string()), Some("new".to_string())), Some("next".to_string()));
    assert_eq!(cache.page_token, "start");
    assert_eq!(change_page_end(&mut cache, None, Some("new".to_string())), None);
    assert_eq!(cache.page_token, "new");
    assert!(cache_usable(&cache, "acc"));
    cache.page_token.clear();
    assert!(!cache_usable(&cache, "acc"));
}

#[test]
fn google_trash_requests_and_answers() {
    assert_eq!(
        trash_url("file id").unwrap(),
        "https://www.googleapis.com/drive/v3/files/file%20id?supportsAllDrives=true&fields=id%2Ctrashed"
    );
    assert!(is_retryable_delete_status(429));
    assert!(!is_retryable_delete_status(423));
    assert!(is_authentication_error("error: INVALID_GRANT"));
    assert!(!is_authentication_error("403 Forbidden"));
    assert!(matches!(trash_step(200, 0, None), TrashStep::CheckBody));
    assert!(matches!(trash_step(503, 1, Some("3")), TrashStep::Retry { attempts: 2, delay_secs: 3 }));
    assert!(matches!(trash_step(404, 0, None), TrashStep::Fail));
    assert!(confirm_trashed(r#"{"id":"x","trashed":true}"#).is_ok());
    assert_eq!(
        confirm_trashed(r#"{"id":"x","trashed":false}"#).unwrap_err(),
        "Google Drive accepted the update but did not move the item to Trash"
    );
    assert!(confirm_trashed("nope").unwrap_err().starts_with("Invalid Google Drive update response: "));
    assert_eq!(
        trash_failure(403, r#"{"error":{"message":"Insufficient Permission"}}"#),
        "Reconnect Google Drive from All Disks to grant permission to move items to Trash."
    );
    assert_eq!(
        trash_failure(404, r#"{"error":{"message":"File not found"}}"#),
        "Google Drive returned 404 Not Found: File not found"
    );
    assert_eq!(
        trash_send_failure(5, true, "timeout").unwrap_err(),
        "Could not reach Google Drive while moving the item to Trash: timeout"
    );
    assert!(revoke_outcome(400).is_ok());
    assert_eq!(revoke_outcome(500).unwrap_err(), "Google could not revoke DuckDisk access: 500 Internal Server Error");
    assert_eq!(check_trash_request(&vec![account("acc")], "acc", 0).unwrap(), false);
    assert_eq!(
        check_trash_request(&vec![account("acc")], "b", 1).unwrap_err(),
        "Google Drive account is not connected"
    );
}

#[test]
fn google_sign_in_messages() {
    assert!(is_user_cap_error("Hit the 100-USER cap"));
    assert!(!is_user_cap_error("denied"));
    assert_eq!(google_oauth_error_message("ACCESS_DENIED", None), "Google Drive access was not granted.");
    assert_eq!(google_oauth_error_message("server_error", Some("boom")), "Google sign-in failed: boom");
    assert_eq!(google_token_error_message("user limit reached"), USER_CAP_MESSAGE);
    assert_eq!(
        google_token_error_message("bad"),
        "Google sign-in failed while exchanging the authorization code: bad"
    );
    let mut flag = OAuthCancellation::new();
    cancel_connection(&mut flag);
    assert_eq!(check_connection(&flag).unwrap_err(), "Google Drive connection cancelled.");
    assert!(callback_timeout_message().starts_with("Google sign-in did not return to DuckDisk."));
}

#[test]
fn google_callback_checks_the_state_first() {
    let wrong = evaluate_callback("GET /?error=access_denied&state=x HTTP/1.1", "s");
    assert!(wrong.response.is_none());
    assert_eq!(wrong.result.unwrap_err(), "Google sign-in state did not match");
    let denied = evaluate_callback("GET /?error=access_denied&state=s HTTP/1.1", "s");
    assert_eq!(denied.result.unwrap_err(), "Google Drive access was not granted.");
    assert!(denied.response.unwrap().contains("<h1>Google Drive connection failed</h1>"));
    let ok = evaluate_callback("GET /?state=s&code=c0de HTTP/1.1", "s");
    assert_eq!(ok.result.unwrap(), "c0de");
    let no_code = evaluate_callback("GET /?state=s HTTP/1.1", "s");
    assert_eq!(no_code.result.unwrap_err(), "Google callback did not include a code");
    assert_eq!(evaluate_callback("", "s").result.unwrap_err(), "Invalid Google callback");
}

#[test]
fn google_cache_forgets_trashed_subtrees() {
    let mut cache = empty_cache();
    cache.items.insert(CachedItem { id: "a".to_string(), parent_id: Some("root".to_string()), name: "a".to_string(), size: 0, is_folder: true });
    cache.items.insert(CachedItem { id: "b".to_string(), parent_id: Some("a".to_string()), name: "b".to_string(), size: 1, is_folder: false });
    forget_deleted(&mut cache, &vec!["a".to_string()]);
    assert_eq!(cache.items.len(), 1);
    assert_eq!(about_url(), "https://www.googleapis.com/drive/v3/about?fields=user(displayName,emailAddress,permissionId),storageQuota(limit,usageInDrive)");
}
