use launchkeeper::about::{check_web_url, is_web_url};

#[test]
fn only_web_urls_pass() {
    assert!(is_web_url("https://github.com/x/y"));
    assert!(is_web_url("http://example.com"));
    assert!(!is_web_url("file:///etc/passwd"));
    assert!(!is_web_url("https://"));
    assert!(!is_web_url("https:///path"));
    assert!(!is_web_url("https://a.b c"));
    assert!(!is_web_url("open -a Calculator"));
}

#[test]
fn control_characters_and_other_white_space_are_refused_too() {
    assert!(!is_web_url("https://a.b/\u{7}"));
    assert!(!is_web_url("https://a.b/\tx"));
    assert!(!is_web_url("https://a.b/\u{3000}"));
    assert!(!is_web_url("HTTPS://a.b"));
}

#[test]
fn a_refused_link_is_reported_with_itself() {
    assert_eq!(check_web_url("https://a.b").unwrap(), "https://a.b");
    assert_eq!(
        check_web_url("file:///etc/passwd").unwrap_err().message,
        "只能打开 http(s) 链接: file:///etc/passwd"
    );
}
