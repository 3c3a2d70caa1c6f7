use duckdisk::instance::{acquisition, is_wake_request, is_wake_response, BindOutcome, InstanceAcquisition};
use duckdisk::local_files::{check_delete_target, delete_action, split_item_path, DeleteAction};
use duckdisk::oauth_config::{google_drive_client_id, onedrive_client_id, GOOGLE_DRIVE_CLIENT_ID, ONEDRIVE_CLIENT_ID};
use duckdisk::retry::{reconnect_step, throttled_step, RetryStep};
use duckdisk::temp_files::{check_regular_file, result_prefix, validate_result_file};
use duckdisk::updates::{check_release, normalize_version, parse_version, release_status_error, user_agent};
use duckdisk::window_style::{check_platform, Error};

#[test]
fn client_ids_take_a_non_blank_override() {
    assert_eq!(onedrive_client_id(None), ONEDRIVE_CLIENT_ID);
    assert_eq!(onedrive_client_id(Some("  ")), ONEDRIVE_CLIENT_ID);
    assert_eq!(onedrive_client_id(Some("mine")), "mine");
    assert_eq!(google_drive_client_id(None), GOOGLE_DRIVE_CLIENT_ID);
}

#[test]
fn retries_are_bounded() {
    assert!(matches!(throttled_step(0, None), RetryStep::Retry { attempts: 1, delay_secs: 2 }));
    assert!(matches!(throttled_step(4, None), RetryStep::Retry { attempts: 5, delay_secs: 32 }));
    assert!(matches!(throttled_step(5, Some("1")), RetryStep::GiveUp));
    assert!(matches!(throttled_step(1, Some("+90")), RetryStep::Retry { attempts: 2, delay_secs: 60 }));
    assert_eq!(reconnect_step(0, false), None);
    assert_eq!(reconnect_step(3, true), Some((4, 16)));
    assert_eq!(reconnect_step(5, true), None);
}

#[test]
fn result_files_must_be_direct_json_children_of_the_temp_dir() {
    assert_eq!(result_prefix("ssh", 42), "duckdisk-ssh-scan-42-");
    assert!(validate_result_file("/tmp/duckdisk-test-1.json", "duckdisk-test-", "/tmp").is_ok());
    assert_eq!(
        validate_result_file("/tmp/../duckdisk-test-result.json", "duckdisk-test-", "/tmp").unwrap_err(),
        "Refusing to read an unrecognized temporary result file"
    );
    assert!(validate_result_file("/tmp/unrelated.json", "duckdisk-test-", "/tmp").is_err());
    assert!(validate_result_file("/tmp/duckdisk-test-1.txt", "duckdisk-test-", "/tmp").is_err());
    assert_eq!(validate_result_file("/", "x", "/tmp").unwrap_err(), "Temporary result path has no valid file name");
    assert_eq!(check_regular_file(true, true).unwrap_err(), "Temporary result must be a regular file");
    assert!(check_regular_file(false, true).is_ok());
}

#[test]
fn local_deletes_stay_inside_the_scan_root() {
    assert_eq!(split_item_path("/root/a.txt").unwrap(), ("/root".to_string(), "a.txt".to_string()));
    assert_eq!(split_item_path("/").unwrap_err(), "Item path has no parent directory");
    assert!(check_delete_target("/root", "/root/a").is_ok());
    assert!(check_delete_target("/root", "/root").is_err());
    assert_eq!(
        check_delete_target("/root", "/rootx/a").unwrap_err(),
        "Refusing to delete outside the scanned path or delete its root"
    );
    assert_eq!(delete_action(true, false, true), DeleteAction::RemoveFile);
    assert_eq!(delete_action(false, false, true), DeleteAction::RemoveFolder);
    assert_eq!(delete_action(false, false, false), DeleteAction::Refuse);
}

#[test]
fn update_checks_read_tags() {
    assert_eq!(normalize_version(" vV1.2.3 "), "1.2.3");
    assert!(parse_version("release").unwrap_err().starts_with("Invalid version 'release': "));
    assert_eq!(user_agent("0.6.2"), "DuckDisk/0.6.2");
    assert_eq!(release_status_error(404), "GitHub returned 404 Not Found while checking releases");
    let newer = check_release("0.6.2", "v0.7.0", "https://example.com/r".to_string()).unwrap();
    assert!(newer.update_available);
    assert_eq!(newer.release_url, "https://example.com/r");
    assert_eq!(newer.latest_version, "0.7.0");
    let same = check_release("0.6.2", "v0.6.2", "https://example.com/r".to_string()).unwrap();
    assert!(!same.update_available);
    assert!(same.release_url.is_empty());
}

#[test]
fn release_check_compares_by_precedence() {
    let newer = check_release("0.9.9", "v0.10.0", "https://example.com/r".to_string()).unwrap();
    assert!(newer.update_available);
    assert_eq!(newer.current_version, "0.9.9");
    assert_eq!(newer.latest_version, "0.10.0");
    let older = check_release("1.0.0", "1.0.0-rc.1", "https://example.com/r".to_string()).unwrap();
    assert!(!older.update_available);
    assert_eq!(older.release_url, "");
    assert!(check_release("1.0", "1.0.1", String::new()).unwrap_err().starts_with("Invalid version '1.0': "));
}

#[test]
fn small_decisions() {
    assert_eq!(Error::UnsupportedPlatform.message(), "\"set_shadow()\" is only supported on macOS");
    assert!(check_platform(false).is_err());
    assert!(is_wake_request(b"DUCKDISK_ACTIVATE_V1"));
    assert!(!is_wake_request(b"DUCKDISK_ACTIVE_V1"));
    assert!(is_wake_response(b"DUCKDISK_ACTIVE_V1"));
    assert_eq!(acquisition(BindOutcome::Bound, false), InstanceAcquisition::Primary { listening: true });
    assert_eq!(acquisition(BindOutcome::AddressInUse, true), InstanceAcquisition::Existing);
    assert_eq!(acquisition(BindOutcome::AddressInUse, false), InstanceAcquisition::Primary { listening: false });
}
