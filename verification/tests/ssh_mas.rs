use duckdisk::ssh_mas::{shell_quote, split_user_and_host};

#[test]
fn parses_required_user_and_host() {
    let (user, host) = split_user_and_host("alice@example.com").unwrap();
    assert_eq!((user.as_str(), host.as_str()), ("alice", "example.com"));
    let (user, host) = split_user_and_host("root@[::1]").unwrap();
    assert_eq!((user.as_str(), host.as_str()), ("root", "[::1]"));
    assert!(split_user_and_host("example.com").is_err());
}

#[test]
fn quotes_remote_values() {
    assert_eq!(shell_quote("/tmp/a b"), "'/tmp/a b'");
    assert_eq!(shell_quote("a'b"), "'a'\"'\"'b'");
}
