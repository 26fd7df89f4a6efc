use photo2video::report::{
    crash_report_url, crash_text, download_url, failure_report_url, issue_url, release_api_url,
    release_page_url, truncate_for_url, urlencode,
};

#[test]
fn links_are_percent_encoded() {
    assert_eq!(urlencode("aZ09-_.~"), "aZ09-_.~");
    assert_eq!(urlencode("a b&c/\n"), "a%20b%26c%2F%0A");
    assert_eq!(urlencode("中"), "%E4%B8%AD");
}

#[test]
fn long_texts_are_cut_by_their_encoded_length() {
    assert_eq!(truncate_for_url("abc", 9), "abc");
    assert_eq!(truncate_for_url("abcd", 9), "abc\n…（內容過長已截斷）");
    assert_eq!(truncate_for_url("中文", 9), "中\n…（內容過長已截斷）");
    assert_eq!(truncate_for_url("", 0), "");
}

#[test]
fn issues_carry_title_and_body() {
    assert_eq!(
        issue_url("a b", "c"),
        "https://github.com/kevin191211/photo2video/issues/new?title=a%20b&body=c"
    );
    let url = failure_report_url("壞了", "1.2.3");
    assert!(url.starts_with("https://github.com/kevin191211/photo2video/issues/new?title="));
    assert!(url.contains(&urlencode("版本：v1.2.3\n作業系統：Windows\n\n錯誤訊息：\n壞了")));
    let url = crash_report_url("boom", "1.2.3");
    assert!(url.contains(&urlencode("程式閃退回報")));
    assert!(url.contains(&urlencode("閃退紀錄：\nboom")));
}

#[test]
fn crashes_are_written_down() {
    assert_eq!(
        crash_text("1.0.0", Some("oops"), Some("main.rs:1:2"), "bt"),
        "Photo2Video v1.0.0\npanic：oops\n位置：main.rs:1:2\n\nbacktrace：\nbt"
    );
    assert_eq!(
        crash_text("1.0.0", None, None, ""),
        "Photo2Video v1.0.0\npanic：（無法取得錯誤內容）\n位置：未知位置\n\nbacktrace：\n"
    );
}

#[test]
fn release_addresses() {
    assert_eq!(
        release_api_url(),
        "https://api.github.com/repos/kevin191211/photo2video/releases/latest"
    );
    assert_eq!(release_page_url(), "https://github.com/kevin191211/photo2video/releases/latest");
    assert_eq!(
        download_url("v2.0.0"),
        "https://github.com/kevin191211/photo2video/releases/download/v2.0.0/photo2video.exe"
    );
}

#[test]
fn links_stay_short_however_long_the_report_is() {
    for text in ["中".repeat(5000), "a\n".repeat(5000), "\u{1F600}".repeat(5000)] {
        assert!(crash_report_url(&text, "10.20.30").len() < 2400 + 12 * 8);
        assert!(failure_report_url(&text, "10.20.30").len() < 2400 + 12 * 8);
    }
}
