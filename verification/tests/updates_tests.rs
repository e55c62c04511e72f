use multi_cursor::updates::{
    http_status_error, is_newer, no_release_result, normalize_version, parse_semver,
    release_result, validate_open_url,
};

#[test]
fn normalize_strips_space_and_v() {
    assert_eq!(normalize_version("  v1.2.3 \n"), "1.2.3");
    assert_eq!(normalize_version("Vv2"), "2");
    assert_eq!(normalize_version("1.0"), "1.0");
    assert_eq!(normalize_version("v 1.2"), " 1.2");
}

#[test]
fn parse_semver_cases() {
    assert_eq!(parse_semver("v1.4.2"), Some((1, 4, 2)));
    assert_eq!(parse_semver("2"), Some((2, 0, 0)));
    assert_eq!(parse_semver("2.5"), Some((2, 5, 0)));
    assert_eq!(parse_semver("1.2.3.4"), Some((1, 2, 3)));
    assert_eq!(parse_semver("+1.+2.3"), Some((1, 2, 3)));
    assert_eq!(parse_semver("1."), None);
    assert_eq!(parse_semver("1.2-beta"), None);
    assert_eq!(parse_semver(""), None);
    assert_eq!(parse_semver("18446744073709551615.0.0"), Some((u64::MAX, 0, 0)));
    assert_eq!(parse_semver("18446744073709551616"), None);
}

#[test]
fn is_newer_compares_lexicographically() {
    assert_eq!(is_newer("1.2.4", "1.2.3"), Ok(true));
    assert_eq!(is_newer("1.10.0", "1.9.9"), Ok(true));
    assert_eq!(is_newer("1.2.3", "1.2.3"), Ok(false));
    assert_eq!(is_newer("0.9", "1.0"), Ok(false));
    assert_eq!(is_newer("v2", "1.99.99"), Ok(true));
}

#[test]
fn is_newer_reports_unparsable_versions() {
    assert_eq!(
        is_newer("abc", "1.0.0"),
        Err("Could not parse latest version \"abc\"".to_string())
    );
    assert_eq!(
        is_newer("1.0.0", "x.y"),
        Err("Could not parse current version \"x.y\"".to_string())
    );
    assert_eq!(
        is_newer("bad", "worse"),
        Err("Could not parse latest version \"bad\"".to_string())
    );
}

#[test]
fn release_results() {
    let r = release_result("1.0.0", "v1.1.0", "https://example.com/r").unwrap();
    assert!(r.update_available);
    assert_eq!(r.latest_version, "1.1.0");
    assert_eq!(r.current_version, "1.0.0");
    assert_eq!(r.release_url, "https://example.com/r");
    assert_eq!(r.message, "Version 1.1.0 is available.");

    let r = release_result("1.1.0", "v1.1.0", "u").unwrap();
    assert!(!r.update_available);
    assert_eq!(r.message, "You're up to date (version 1.1.0).");

    assert_eq!(
        release_result("1.0.0", "nightly", "u").unwrap_err(),
        "Could not parse latest version \"nightly\""
    );
}

#[test]
fn no_release_means_up_to_date() {
    let r = no_release_result("0.3.1");
    assert!(!r.update_available);
    assert_eq!(r.latest_version, "0.3.1");
    assert_eq!(r.release_url, "https://github.com/claudio-silva/multi-cursor/releases");
    assert_eq!(r.message, "You're up to date (version 0.3.1).");
}

#[test]
fn http_error_text() {
    assert_eq!(http_status_error("500 Internal Server Error"), "GitHub returned HTTP 500 Internal Server Error");
}

#[test]
fn open_url_validation() {
    assert_eq!(validate_open_url("  https://x.org  "), Ok("https://x.org".to_string()));
    assert_eq!(validate_open_url("http://x"), Ok("http://x".to_string()));
    assert_eq!(validate_open_url("   "), Err("URL is required".to_string()));
    assert_eq!(
        validate_open_url("file:///etc/passwd"),
        Err("Only http(s) URLs can be opened".to_string())
    );
}
