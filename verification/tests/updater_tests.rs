use zerowhats::updater::{is_newer, parse_semver, update_available};

#[test]
fn parse_semver_plain() {
    assert_eq!(parse_semver("1.2.3"), Some((1, 2, 3)));
}

#[test]
fn parse_semver_with_v_prefix() {
    assert_eq!(parse_semver("v1.5.2"), Some((1, 5, 2)));
}

#[test]
fn parse_semver_zero() {
    assert_eq!(parse_semver("0.0.0"), Some((0, 0, 0)));
}

#[test]
fn parse_semver_large_numbers() {
    assert_eq!(parse_semver("v100.200.300"), Some((100, 200, 300)));
}

#[test]
fn parse_semver_invalid_missing_patch() {
    assert_eq!(parse_semver("1.2"), None);
}

#[test]
fn parse_semver_invalid_empty() {
    assert_eq!(parse_semver(""), None);
}

#[test]
fn parse_semver_invalid_text() {
    assert_eq!(parse_semver("abc"), None);
}

#[test]
fn parse_semver_invalid_non_numeric() {
    assert_eq!(parse_semver("v1.x.3"), None);
}

#[test]
fn semver_comparison_newer() {
    let remote = parse_semver("v2.0.0").unwrap();
    let local = parse_semver("v1.5.2").unwrap();
    assert!(remote > local);
    assert!(is_newer(remote, local));
}

#[test]
fn semver_comparison_same() {
    let remote = parse_semver("v1.5.2").unwrap();
    let local = parse_semver("v1.5.2").unwrap();
    assert!(!(remote > local));
    assert!(!is_newer(remote, local));
}

#[test]
fn semver_comparison_older() {
    let remote = parse_semver("v1.4.0").unwrap();
    let local = parse_semver("v1.5.2").unwrap();
    assert!(!(remote > local));
    assert!(!is_newer(remote, local));
}

#[test]
fn semver_comparison_patch_bump() {
    let remote = parse_semver("v1.5.3").unwrap();
    let local = parse_semver("v1.5.2").unwrap();
    assert!(remote > local);
    assert!(is_newer(remote, local));
}

#[test]
fn semver_comparison_minor_bump() {
    let remote = parse_semver("v1.6.0").unwrap();
    let local = parse_semver("v1.5.9").unwrap();
    assert!(remote > local);
    assert!(is_newer(remote, local));
}

#[test]
fn parse_semver_edge_cases() {
    assert_eq!(parse_semver("1.2.3.4"), Some((1, 2, 3)));
    assert_eq!(parse_semver("+1.2.3"), Some((1, 2, 3)));
    assert_eq!(parse_semver("1..3"), None);
    assert_eq!(parse_semver("4294967295.0.0"), Some((u32::MAX, 0, 0)));
    assert_eq!(parse_semver("4294967296.0.0"), None);
    assert_eq!(parse_semver("vv1.2.3"), None);
}

#[test]
fn update_available_compares_tag_with_current() {
    assert!(update_available("v1.6.0", "1.5.9"));
    assert!(!update_available("v1.5.9", "1.5.9"));
    assert!(!update_available("garbage", "1.5.9"));
    assert!(!update_available("v2.0.0", "unknown"));
}

#[test]
fn formatted_versions_parse_back() {
    for (a, b, c) in [(0, 0, 0), (1, 2, 3), (100, 200, 300), (u32::MAX, 7, u32::MAX)] {
        assert_eq!(parse_semver(&format!("{a}.{b}.{c}")), Some((a, b, c)));
        assert_eq!(parse_semver(&format!("v{a}.{b}.{c}")), Some((a, b, c)));
    }
}
