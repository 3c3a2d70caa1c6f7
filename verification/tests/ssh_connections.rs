use duckdisk::scan_table::ScanTable;
use duckdisk::ssh::{PasswordAction, SCAN_CANCELLED_MESSAGE, SshAuthMethod, SshConnection, SshConnectionInput, SshDeleteResult, SshStorageUsage, StderrLog, askpass_env, askpass_plan, cached_result_usable, check_scan_output, delete_command, deletion_clears_cache, exit_failure, failure_reported, find_connection, parse_progress, plan_save_connection, remove_connection, scan_cancelled, scan_command, set_storage_usage, shell_quote, ssh_args, start_scan, stop_scan, storage_command, validate_connection_input, validate_ssh_host};

fn input(id: Option<&str>, auth: SshAuthMethod, password: &str) -> SshConnectionInput {
    SshConnectionInput {
        id: id.map(str::to_string),
        name: "  ".to_string(),
        host: " server ".to_string(),
        port: 22,
        path: " /srv ".to_string(),
        auth_method: auth,
        password: password.to_string(),
    }
}

fn saved(id: &str, auth: SshAuthMethod) -> SshConnection {
    SshConnection {
        id: id.to_string(),
        name: id.to_string(),
        host: "h".to_string(),
        port: 22,
        path: "/".to_string(),
        auth_method: auth,
        storage_usage: None,
    }
}

#[test]
fn ssh_forms_are_checked_in_order() {
    let mut form = input(None, SshAuthMethod::Key, "");
    assert!(validate_connection_input(&form).is_ok());
    form.host = "  ".to_string();
    assert_eq!(validate_connection_input(&form).unwrap_err(), "Enter an SSH host or alias");
    form.host = "-x".to_string();
    assert_eq!(
        validate_connection_input(&form).unwrap_err(),
        "SSH host or alias cannot start with '-' or contain whitespace"
    );
    form.host = "h".to_string();
    form.path = "relative".to_string();
    assert_eq!(validate_connection_input(&form).unwrap_err(), "Remote path must be an absolute path");
    form.path = "/a\rb".to_string();
    assert_eq!(
        validate_connection_input(&form).unwrap_err(),
        "Remote path contains unsupported control characters"
    );
    form.path = "/a".to_string();
    form.port = 0;
    assert_eq!(validate_connection_input(&form).unwrap_err(), "SSH port must be between 1 and 65535");
    assert!(validate_ssh_host("a\0b").is_err());
}

#[test]
fn ssh_saves_new_and_edited_connections() {
    let existing = vec![saved("ssh-1", SshAuthMethod::Password)];
    let plan = plan_save_connection(&input(None, SshAuthMethod::Key, ""), &existing, 0xabc).unwrap();
    assert_eq!(plan.connection.id, "ssh-abc");
    assert_eq!(plan.connection.name, "server");
    assert_eq!(plan.connection.host, "server");
    assert_eq!(plan.connection.path, "/srv");
    assert_eq!(plan.connections.len(), 2);
    assert_eq!(plan.password, PasswordAction::Keep);
    assert!(!plan.replaced);

    assert_eq!(
        plan_save_connection(&input(None, SshAuthMethod::Password, ""), &existing, 1).unwrap_err(),
        "Enter the SSH password"
    );
    let edit = plan_save_connection(&input(Some("ssh-1"), SshAuthMethod::Password, ""), &existing, 1).unwrap();
    assert!(edit.replaced);
    assert_eq!(edit.connection.id, "ssh-1");
    assert_eq!(edit.connections.len(), 1);
    assert_eq!(edit.password, PasswordAction::Keep);
    let to_key = plan_save_connection(&input(Some("ssh-1"), SshAuthMethod::Key, ""), &existing, 1).unwrap();
    assert_eq!(to_key.password, PasswordAction::Delete);
    let new_pw = plan_save_connection(&input(None, SshAuthMethod::Password, "pw"), &existing, 1).unwrap();
    assert_eq!(new_pw.password, PasswordAction::Store);
    assert_eq!(
        plan_save_connection(&input(Some("nope"), SshAuthMethod::Key, ""), &existing, 1).unwrap_err(),
        "SSH connection was not found"
    );
}

#[test]
fn ssh_connections_are_removed_and_annotated() {
    let mut list = vec![saved("a", SshAuthMethod::Password), saved("b", SshAuthMethod::Key)];
    assert!(set_storage_usage(&mut list, "b", SshStorageUsage { total_space: 3, used_space: 2, available_space: 1 }).is_ok());
    assert_eq!(list[1].storage_usage.unwrap().used_space, 2);
    assert_eq!(
        set_storage_usage(&mut list, "z", SshStorageUsage { total_space: 0, used_space: 0, available_space: 0 }).unwrap_err(),
        "SSH connection was not found"
    );
    assert!(remove_connection(&mut list, "a"));
    assert_eq!(list.len(), 1);
    assert!(!remove_connection(&mut list, "b"));
    assert!(list.is_empty());
    assert_eq!(find_connection(&list, "b").unwrap_err(), "SSH connection was not found");
}

#[test]
fn ssh_commands_quote_their_arguments() {
    let c = storage_command("/srv/my files");
    assert!(c.starts_with("python3 -c 'import json, os, sys"));
    assert!(c.ends_with(" '/srv/my files'"));
    let d = delete_command("/srv", &vec!["/srv/a'b".to_string()]).unwrap();
    assert!(d.ends_with(r#" '/srv' '["/srv/a'"'"'b"]'"#));
    let s = scan_command("/srv", "Box", "host");
    assert!(s.ends_with(" '/srv' 'Box (host)'"));
    assert_eq!(
        ssh_args(2222, SshAuthMethod::Key),
        vec!["-o", "ConnectTimeout=12", "-p", "2222", "-o", "BatchMode=yes"]
    );
    assert_eq!(ssh_args(22, SshAuthMethod::Password).len(), 12);
    let env = askpass_env("/Applications/DuckDisk", "ssh-1");
    assert_eq!(env[4], ("DUCKDISK_SSH_CONNECTION_ID".to_string(), "ssh-1".to_string()));
}

#[test]
fn ssh_helper_and_failures() {
    assert_eq!(askpass_plan(false, None).unwrap(), None);
    assert_eq!(
        askpass_plan(true, None).unwrap_err(),
        "SSH password helper did not receive a connection ID"
    );
    assert_eq!(askpass_plan(true, Some("x".to_string())).unwrap(), Some("x".to_string()));
    assert_eq!(exit_failure("SSH deletion", "exit status: 1", " \n"), "SSH deletion exited with exit status: 1");
    assert_eq!(exit_failure("SSH scan", "exit status: 2", " boom \n"), "SSH scan failed: boom");
    assert!(check_scan_output("{\"tree\":{}}").is_ok());
    assert!(check_scan_output("{").unwrap_err().starts_with("Remote scan returned invalid JSON: "));
    assert!(cached_result_usable("[]"));
    assert!(!cached_result_usable("nope"));
    assert!(deletion_clears_cache(&SshDeleteResult { deleted_ids: vec!["a".to_string()], failures: Vec::new() }));
}

#[test]
fn ssh_error_output_keeps_only_real_errors() {
    let mut log = StderrLog::new();
    assert_eq!(log.on_line("DUCKDISK_PROGRESS\t1\t2"), Some((1, 2)));
    assert_eq!(log.on_line("   "), None);
    assert_eq!(log.on_line("Permission denied"), None);
    assert_eq!(log.on_line("DUCKDISK_PROGRESS\tx\t2"), None);
    assert_eq!(log.joined(), "Permission denied\nDUCKDISK_PROGRESS\tx\t2");
    assert_eq!(parse_progress("DUCKDISK_PROGRESS\t7\t8\textra"), Some((7, 8)));
    assert_eq!(parse_progress("DUCKDISK_PROGRESS\t7"), None);
}

#[test]
fn ssh_scans_register_and_stop() {
    let mut scans = ScanTable::new();
    assert!(start_scan(&mut scans, "c"));
    assert!(!start_scan(&mut scans, "c"));
    assert!(!scan_cancelled(&scans, "c"));
    stop_scan(&mut scans, "c");
    assert!(scan_cancelled(&scans, "c"));
    assert!(!failure_reported(SCAN_CANCELLED_MESSAGE));
}

#[test]
fn progress_lines_read_back_what_was_written() {
    for (items, total) in [(0u64, 0u64), (1250, 1_048_576), (u64::MAX, 42)] {
        let line = format!("DUCKDISK_PROGRESS\t{items}\t{total}");
        assert_eq!(parse_progress(&line), Some((items, total)));
    }
    assert_eq!(shell_quote("plain"), "'plain'");
}
