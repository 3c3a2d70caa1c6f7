use duckdisk::cloud_items::{CachedItem, CloudItems};
use duckdisk::google_drive::{
    build_scan_tree, google_drive_item_url, google_oauth_error_message, remove_cached_subtree,
    GoogleDriveAccount, GoogleDriveCache, CACHE_VERSION, USER_CAP_MESSAGE,
};

fn item(id: &str, parent_id: Option<&str>, name: &str, size: u64, folder: bool) -> CachedItem {
    CachedItem {
        id: id.to_string(),
        parent_id: parent_id.map(str::to_string),
        name: name.to_string(),
        size,
        is_folder: folder,
    }
}

fn cache_with(items: Vec<CachedItem>) -> GoogleDriveCache {
    let mut table = CloudItems::new();
    for entry in items {
        table.insert(entry);
    }
    GoogleDriveCache {
        version: CACHE_VERSION.to_string(),
        account_id: "account".to_string(),
        root_id: "root".to_string(),
        page_token: "token".to_string(),
        items: table,
    }
}

#[test]
fn builds_google_drive_tree_and_attaches_orphans() {
    let cache = cache_with(vec![
        item("root", None, "My Drive", 0, true),
        item("folder", Some("root"), "Work", 0, true),
        item("file", Some("folder"), "notes.txt", 42, false),
        item("orphan", Some("missing"), "shared.pdf", 8, false),
    ]);
    let account = GoogleDriveAccount {
        id: "account".to_string(),
        name: "Qi Yang".to_string(),
        email: "qi@example.com".to_string(),
        total_space: 100,
        used_space: 50,
        available_space: 50,
    };
    let tree = build_scan_tree(&cache, &account);
    assert_eq!(tree.size, 50);
    assert_eq!(tree.children.len(), 2);
}

#[test]
fn removes_google_drive_cached_subtree() {
    let mut cache = cache_with(vec![
        item("root", None, "My Drive", 0, true),
        item("folder", Some("root"), "Work", 0, true),
        item("nested", Some("folder"), "Drafts", 0, true),
        item("file", Some("nested"), "notes.txt", 42, false),
        item("keep", Some("root"), "keep.pdf", 8, false),
    ]);

    remove_cached_subtree(&mut cache, "folder");

    assert!(cache.items.contains_key("root"));
    assert!(cache.items.contains_key("keep"));
    assert!(!cache.items.contains_key("folder"));
    assert!(!cache.items.contains_key("nested"));
    assert!(!cache.items.contains_key("file"));
}

#[test]
fn explains_google_oauth_user_cap() {
    let message = google_oauth_error_message(
        "rate_limit_exceeded",
        Some("Sign in with Google temporarily disabled for this app"),
    );
    assert_eq!(message, USER_CAP_MESSAGE);
}

#[test]
fn distinguishes_cancelled_google_oauth() {
    let message = google_oauth_error_message("access_denied", None);
    assert_eq!(message, "Google Drive access was not granted.");
}

#[test]
fn builds_google_drive_item_url_without_an_empty_path_segment() {
    let url = google_drive_item_url("file-id").unwrap();

    assert_eq!(url.as_str(), "https://www.googleapis.com/drive/v3/files/file-id");
}
