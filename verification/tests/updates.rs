use duckdisk::updates::{is_newer, parse_version, version_text, SemVersion};

#[test]
fn parses_release_tags() {
    assert_eq!(parse_version("v0.5.2").unwrap(), SemVersion::new(0, 5, 2));
    assert_eq!(parse_version(" V1.2.3 ").unwrap(), SemVersion::new(1, 2, 3));
}

#[test]
fn compares_versions_semantically() {
    assert!(is_newer("0.10.0", "0.9.9").unwrap());
}

#[test]
fn versions_keep_pre_release_and_build_texts() {
    let v = parse_version("v1.2.3-beta.1+build.5").unwrap();
    assert_eq!((v.major, v.minor, v.patch), (1, 2, 3));
    assert_eq!(v.pre, "beta.1");
    assert_eq!(v.build, "build.5");
    assert_eq!(version_text(&v), "1.2.3-beta.1+build.5");
    assert_eq!(version_text(&SemVersion::new(10, 0, 7)), "10.0.7");
}

#[test]
fn pre_releases_come_before_their_release() {
    assert!(is_newer("1.0.0", "1.0.0-rc.1").unwrap());
    assert!(!is_newer("1.0.0-rc.1", "1.0.0").unwrap());
    assert!(!is_newer("0.9.9", "0.10.0").unwrap());
    assert!(is_newer("1.0.0", "bad").unwrap_err().starts_with("Invalid version 'bad': "));
    assert!(is_newer("nope", "1.0.0").unwrap_err().starts_with("Invalid version 'nope': "));
}
