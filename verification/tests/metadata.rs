use workshadow::capture::metadata::extract_browser_url;

#[test]
fn test_extract_browser_url_from_chrome() {
    let url = extract_browser_url("Google-chrome", "GitHub - Google Chrome");
    assert_eq!(url, Some("GitHub".to_string()));
}

#[test]
fn test_extract_browser_url_non_browser() {
    let url = extract_browser_url("code", "main.rs - Visual Studio Code");
    assert_eq!(url, None);
}

#[test]
fn test_extract_browser_url_empty() {
    let url = extract_browser_url("firefox", "");
    assert_eq!(url, None);
}

#[test]
fn extract_browser_url_uses_last_separator_and_trims() {
    let url = extract_browser_url("Firefox", "  Docs - Part 2  - Mozilla Firefox");
    assert_eq!(url, Some("Docs - Part 2".to_string()));
}

#[test]
fn extract_browser_url_em_dash_separator() {
    let url = extract_browser_url("Safari", "Inbox \u{2014} Safari");
    assert_eq!(url, Some("Inbox".to_string()));
}

#[test]
fn extract_browser_url_without_separator_keeps_title() {
    let url = extract_browser_url("brave-browser", "New Tab");
    assert_eq!(url, Some("New Tab".to_string()));
}

#[test]
fn extract_browser_url_blank_page_part() {
    let url = extract_browser_url("chromium", "   - Chromium");
    assert_eq!(url, None);
}
