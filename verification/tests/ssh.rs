use duckdisk::ssh::{parse_progress, shell_quote, validate_ssh_host};

#[test]
fn shell_quotes_remote_values() {
    assert_eq!(shell_quote("/tmp/a b"), "'/tmp/a b'");
    assert_eq!(shell_quote("a'b"), "'a'\"'\"'b'");
}

#[test]
fn rejects_ssh_option_injection_as_a_host() {
    assert!(validate_ssh_host("-oProxyCommand=bad").is_err());
    assert!(validate_ssh_host("host name").is_err());
    assert!(validate_ssh_host("server.example.com").is_ok());
}

#[test]
fn parses_remote_scan_progress() {
    assert_eq!(parse_progress("DUCKDISK_PROGRESS\t1250\t1048576"), Some((1250, 1_048_576)));
    assert_eq!(parse_progress("ssh warning"), None);
}
