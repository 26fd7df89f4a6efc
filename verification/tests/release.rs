use photo2video::release::{
    check_latest_release, check_response, is_windows_program, newer_than, parse_version, split,
    Answer,
};

#[test]
fn versions_are_parsed() {
    assert_eq!(parse_version("v1.2.3"), Some((1, 2, 3)));
    assert_eq!(parse_version(" 1.2 "), Some((1, 2, 0)));
    assert_eq!(parse_version("Vv10.0.7.9"), Some((10, 0, 7)));
    assert_eq!(parse_version("1"), None);
    assert_eq!(parse_version("1.x"), None);
    assert_eq!(parse_version("1.2.3-beta"), None);
    assert_eq!(parse_version("1.2."), None);
    assert_eq!(parse_version(""), None);
    assert_eq!(parse_version("99999999999999999999.0"), None);
    assert_eq!(parse_version("18446744073709551615.0"), Some((u64::MAX, 0, 0)));
}

#[test]
fn fields_are_split() {
    assert_eq!(split("a.b..c", '.'), ["a", "b", "", "c"]);
    assert_eq!(split("", '.'), [""]);
}

#[test]
fn newer_versions_are_recognised() {
    assert_eq!(newer_than("v1.10.0", "1.9.9").ok(), Some(Some("v1.10.0".to_string())));
    assert_eq!(newer_than("v1.9.9", "1.9.9").ok(), Some(None));
    assert_eq!(newer_than("v1.9.8", "1.9.9").ok(), Some(None));
    assert_eq!(newer_than("v2.0", "1.9.9").ok(), Some(Some("v2.0".to_string())));
    assert_eq!(newer_than("latest", "1.0.0").err().unwrap().message(), "無法解析最新版本號");
    assert_eq!(newer_than("1.0.0", "dev").err().unwrap().message(), "無法解析目前版本號");
}

#[test]
fn answers_are_read() {
    assert_eq!(
        check_response("{\"tag_name\": \"v9.0.0\"}", "1.0.0").ok(),
        Some(Some("v9.0.0".to_string()))
    );
    assert_eq!(
        check_response("{\"name\": \"v9.0.0\"}", "1.0.0").err().unwrap().message(),
        "回應中沒有版本資訊"
    );
    assert_eq!(
        check_response("oops", "1.0.0").err().unwrap().message(),
        "回應解析失敗：Failed to read JSON: expected value at line 1 column 1"
    );
}

#[test]
fn missing_release_is_no_error() {
    let none = check_latest_release(&Answer::Refused(404, "not found".to_string()), "1.0.0");
    assert_eq!(none.ok(), Some(None));
    let refused = check_latest_release(&Answer::Refused(500, "oh".to_string()), "1.0.0");
    assert_eq!(refused.err().unwrap().message(), "連線失敗：oh");
    let silent = check_latest_release(&Answer::Silent("dns".to_string()), "1.0.0");
    assert_eq!(silent.err().unwrap().message(), "連線失敗：dns");
    let late = check_latest_release(&Answer::Broken(true, "timed out".to_string()), "1.0.0");
    assert_eq!(late.err().unwrap().message(), "回應解析失敗：timed out");
    let cut = check_latest_release(&Answer::Broken(false, "reset".to_string()), "1.0.0");
    assert_eq!(cut.err().unwrap().message(), "回應解析失敗：Failed to read JSON: reset");
    let body = Answer::Body("{\"tag_name\": \"1.0.1\"}".to_string());
    assert_eq!(check_latest_release(&body, "1.0.0").ok(), Some(Some("1.0.1".to_string())));
}

#[test]
fn programs_begin_with_mz() {
    assert!(is_windows_program(b"MZ\x90"));
    assert!(!is_windows_program(b"<h"));
    assert!(!is_windows_program(b"M"));
}
