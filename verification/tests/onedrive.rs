use duckdisk::cloud_items::{CachedItem, CloudItems};
use duckdisk::onedrive::{
    apply_delta_item, build_item_tree, build_scan_tree, graph_error_message, is_authentication_error,
    is_delta_resync_error, is_retryable_delete_status, remove_cached_subtree, GraphItem, OneDriveAccount,
    OneDriveCache, CACHE_VERSION,
};

fn item(id: &str, parent_id: Option<&str>, name: &str, size: u64, folder: bool) -> CachedItem {
    CachedItem {
        id: id.to_string(),
        parent_id: parent_id.map(str::to_string),
        name: name.to_string(),
        size,
        is_folder: folder,
    }
}

fn cache_with(items: Vec<CachedItem>) -> OneDriveCache {
    let mut table = CloudItems::new();
    for entry in items {
        table.insert(entry);
    }
    OneDriveCache {
        version: CACHE_VERSION.to_string(),
        account_id: "drive".to_string(),
        root_id: "root".to_string(),
        delta_link: "delta".to_string(),
        next_link: String::new(),
        checkpoint_items: 0,
        checkpoint_bytes: 0,
        items: table,
    }
}

#[test]
fn builds_cloud_tree_and_sums_leaf_sizes() {
    let cache = cache_with(vec![
        item("root", None, "root", 999, true),
        item("folder", Some("root"), "Photos", 999, true),
        item("file", Some("folder"), "duck.png", 42, false),
    ]);
    let account = OneDriveAccount {
        id: "drive".to_string(),
        name: "Qi".to_string(),
        drive_type: "personal".to_string(),
        total_space: 100,
        used_space: 42,
        available_space: 58,
    };

    let tree = build_scan_tree(&cache, &account);
    assert_eq!(tree.size, 42);
    assert_eq!(tree.children[0].size, 42);
    assert_eq!(tree.children[0].children[0].cloud_id, "file");
    let folder = build_item_tree(&cache, "folder").unwrap();
    assert_eq!(folder.cloud_id, "folder");
    assert_eq!(folder.size, 42);
    assert_eq!(folder.children[0].cloud_id, "file");
}

#[test]
fn delta_delete_removes_cached_item() {
    let mut cache = cache_with(vec![item("file", Some("root"), "old.txt", 12, false)]);
    apply_delta_item(
        &mut cache,
        GraphItem {
            id: "file".to_string(),
            name: None,
            size: None,
            parent_reference: None,
            folder: false,
            deleted: true,
        },
    );
    assert!(!cache.items.contains_key("file"));
}

#[test]
fn cache_delete_removes_folder_descendants() {
    let mut cache = cache_with(vec![
        item("root", None, "root", 0, true),
        item("folder", Some("root"), "folder", 0, true),
        item("child", Some("folder"), "child.txt", 12, false),
        item("keep", Some("root"), "keep.txt", 8, false),
    ]);

    remove_cached_subtree(&mut cache, "folder");

    assert!(!cache.items.contains_key("folder"));
    assert!(!cache.items.contains_key("child"));
    assert!(cache.items.contains_key("root"));
    assert!(cache.items.contains_key("keep"));
}

#[test]
fn recognizes_delta_resync_errors() {
    assert!(is_delta_resync_error(
        r#"Microsoft Graph returned 410 Gone: {"error":{"code":"resyncRequired"}}"#
    ));
    assert!(is_delta_resync_error(
        r#"{"error":{"code":"resyncChangesApplyDifferences"}}"#
    ));
    assert!(!is_delta_resync_error(
        "Microsoft Graph remained unavailable (429 Too Many Requests)"
    ));
}

#[test]
fn recognizes_authentication_errors() {
    assert!(is_authentication_error(
        r#"Microsoft Graph returned 401 Unauthorized: {"error":{"code":"InvalidAuthenticationToken"}}"#
    ));
    assert!(!is_authentication_error("Microsoft Graph returned 403 Forbidden"));
}

#[test]
fn retries_only_transient_delete_statuses() {
    for status in [408, 409, 423, 429, 500, 502, 503, 504] {
        assert!(is_retryable_delete_status(status));
    }
    for status in [400, 401, 403, 404] {
        assert!(!is_retryable_delete_status(status));
    }
}

#[test]
fn extracts_graph_delete_error_message() {
    assert_eq!(
        graph_error_message(423, r#"{"error":{"message":"The resource is temporarily locked."}}"#),
        "Microsoft Graph returned 423 Locked: The resource is temporarily locked."
    );
}
