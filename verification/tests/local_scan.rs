use duckdisk::scan::{CacheIndexEntry, ChildInfo, MergedChild, ScanErrorRecord, ScanMonitor, build_error_report, changed_paths, check_report_location, check_result_location, child_path, classify_scan_error, is_total_root, parse_progress_report, parse_scan_error, plan_merge, ratio_arg, removed_paths, scan_args, scan_targets};

fn record(kind: &str) -> ScanErrorRecord {
    ScanErrorRecord { operation: "read".to_string(), path: "/x".to_string(), reason: "r".to_string(), kind: kind.to_string() }
}

fn index_entry(path: &str, modified_ms: u128, len: u64) -> CacheIndexEntry {
    CacheIndexEntry { path: path.to_string(), is_dir: false, modified_ms, len }
}

#[test]
fn pdu_gets_its_options_and_targets() {
    let args = scan_args(&ratio_arg("0.01"));
    assert_eq!(args.len(), 7);
    assert_eq!(args[0], "--json-output");
    assert_eq!(args[6], "--min-ratio=0.01");
    assert_eq!(scan_targets("/Users/qi", None), vec!["/Users/qi".to_string()]);
    assert_eq!(scan_targets("/", None), vec!["/".to_string()]);
    let listing = vec!["/Applications".to_string(), "/System".to_string(), "/Users".to_string(), "/dev".to_string()];
    assert_eq!(scan_targets("/", Some(listing)), vec!["/Applications".to_string(), "/Users".to_string()]);
}

#[test]
fn progress_reports_are_read_from_pdu_output() {
    assert_eq!(parse_progress_report("(scanned 12, total 3400)"), Some((12, 3400)));
    assert_eq!(
        parse_progress_report("\r(scanned 5, total 9, linked 1, shared 2, erred 3)"),
        Some((5, 9))
    );
    assert_eq!(parse_progress_report("x (scanned 5, total 9, erred 3) y"), Some((5, 9)));
    assert_eq!(parse_progress_report("(scanned 5, total 9, linked 1)"), None);
    assert_eq!(parse_progress_report("(scanned , total 9)"), None);
    assert_eq!(parse_progress_report("(scanned 99999999999999999999, total 1)"), Some((0, 1)));
    assert_eq!(parse_progress_report("(scanned 1, total 2 (scanned 3, total 4)"), Some((3, 4)));
}

#[test]
fn error_lines_are_read_and_classified() {
    let rec = parse_scan_error(r#"[error] read_dir "/Users/qi/Library": Operation not permitted (os error 1)"#).unwrap();
    assert_eq!(rec.operation, "read_dir");
    assert_eq!(rec.path, "/Users/qi/Library");
    assert_eq!(rec.reason, "Operation not permitted (os error 1)");
    assert_eq!(rec.kind, "operationNotPermitted");
    let tricky = parse_scan_error(r#"[error] stat "a": b": Permission denied"#).unwrap();
    assert_eq!(tricky.path, r#"a": b"#);
    assert_eq!(tricky.kind, "permissionDenied");
    assert!(parse_scan_error(r#"[error] stat "a": "#).is_none());
    assert!(parse_scan_error("[error]  \"a\": b").is_none());
    assert!(parse_scan_error("[error] stat \"a\nb\": c").is_none());
    assert_eq!(classify_scan_error("Interrupted system call"), "interrupted");
    assert_eq!(classify_scan_error("disk on fire"), "other");
}

#[test]
fn errors_are_counted_once_each() {
    let records = vec![
        record("operationNotPermitted"),
        record("permissionDenied"),
        record("permissionDenied"),
        record("interrupted"),
        record("weird"),
    ];
    let report = build_error_report(records);
    let c = &report.counts;
    assert_eq!((c.operation_not_permitted, c.permission_denied, c.interrupted, c.other), (1, 2, 1, 1));
    assert_eq!(c.operation_not_permitted + c.permission_denied + c.interrupted + c.other, report.records.len() as u64);
}

#[test]
fn the_monitor_follows_progress_and_errors() {
    let mut m = ScanMonitor::new();
    assert!(m.on_stderr_line("(scanned 3, total 30)"));
    assert_eq!((m.items, m.total), (3, 30));
    assert!(m.on_stderr_line(r#"[error] open "/a": Interrupted system call"#));
    assert_eq!(m.records.len(), 1);
    assert!(!m.on_stderr_line("noise"));
    assert_eq!((m.items, m.total, m.records.len()), (3, 30, 1));
}

#[test]
fn cache_index_finds_changed_and_removed_paths() {
    let index = vec![index_entry("/a", 1, 10), index_entry("/b", 1, 10), index_entry("/c", 1, 10), index_entry("/c", 2, 10)];
    let current = vec![index_entry("/a", 1, 10), index_entry("/b", 2, 10), index_entry("/d", 1, 1)];
    assert_eq!(changed_paths(&index, &current), vec!["/b".to_string(), "/d".to_string()]);
    assert_eq!(removed_paths(&index, &current), vec!["/c".to_string()]);
}

#[test]
fn child_paths_follow_the_scanned_folder() {
    assert_eq!(child_path("/Users", true, Some("/Users/qi")).unwrap(), "/Users/qi");
    assert_eq!(child_path("/", false, Some("Users")).unwrap(), "/Users");
    assert_eq!(child_path("/Users", false, Some("qi")).unwrap(), "/Users/qi");
    assert_eq!(child_path("/Users/", false, Some("qi")).unwrap(), "/Users/qi");
    assert_eq!(child_path("/Users", false, Some("/abs")).unwrap(), "/abs");
    assert!(child_path("/Users", false, None).is_none());
    assert!(is_total_root(Some("(total)")));
    assert!(!is_total_root(Some("qi")));
}

#[test]
fn rescans_replace_children_and_drop_removed_ones() {
    let existing = vec![
        ChildInfo { name: Some("a".to_string()), size: 10 },
        ChildInfo { name: Some("b".to_string()), size: 20 },
        ChildInfo { name: None, size: 5 },
    ];
    let changed = vec![
        ChildInfo { name: Some("/root/a".to_string()), size: 11 },
        ChildInfo { name: Some("/root/new".to_string()), size: 7 },
        ChildInfo { name: Some(String::new()), size: 100 },
    ];
    let plan = plan_merge("/root", false, &existing, &vec!["/root/b".to_string()], &changed);
    assert_eq!(plan.size, Some(11 + 5 + 7));
    assert_eq!(plan.children.len(), 3);
    match &plan.children[0] {
        MergedChild::Scanned(j, rename) => {
            assert_eq!(*j, 0);
            assert_eq!(rename.as_deref(), Some("a"));
        }
        MergedChild::Cached(_) => panic!("expected the rescanned child"),
    }
    assert!(matches!(plan.children[1], MergedChild::Cached(2)));
    assert!(matches!(plan.children[2], MergedChild::Scanned(1, _)));

    let huge = vec![ChildInfo { name: Some("x".to_string()), size: u64::MAX }, ChildInfo { name: Some("y".to_string()), size: 1 }];
    assert_eq!(plan_merge("/root", false, &huge, &Vec::new(), &Vec::new()).size, None);
}

#[test]
fn results_are_read_only_from_the_temporary_directory() {
    assert!(check_result_location("/tmp/x.json", "/tmp").is_ok());
    assert_eq!(
        check_result_location("/etc/passwd", "/tmp").unwrap_err(),
        "Refusing to read scan result outside the temporary directory"
    );
    assert_eq!(
        check_report_location("/tmpx/a", "/tmp").unwrap_err(),
        "Refusing to read scan error report outside the temporary directory"
    );
}

#[test]
fn a_path_rescanned_twice_stays_one_child() {
    let existing = vec![ChildInfo { name: Some("a".to_string()), size: 10 }];
    let changed = vec![
        ChildInfo { name: Some("/root/x".to_string()), size: 1 },
        ChildInfo { name: Some("/root/x".to_string()), size: 2 },
    ];
    let plan = plan_merge("/root", false, &existing, &Vec::new(), &changed);
    assert_eq!(plan.children.len(), 2);
    assert!(matches!(plan.children[0], MergedChild::Cached(0)));
    match &plan.children[1] {
        MergedChild::Scanned(j, rename) => {
            assert_eq!(*j, 1);
            assert_eq!(rename.as_deref(), Some("x"));
        }
        MergedChild::Cached(_) => panic!("expected the rescanned child"),
    }
    assert_eq!(plan.size, Some(12));
}
