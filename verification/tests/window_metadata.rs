use workshadow::capture::metadata::{macos_window_metadata, window_metadata, x11_window_metadata};

#[test]
fn browser_windows_get_a_page_hint() {
    let m = window_metadata(7, "Docs - Brave".to_string(), "brave".to_string());
    assert_eq!(m.timestamp_ms, 7);
    assert_eq!(m.browser_url, Some("Docs".to_string()));
    assert_eq!(m.display_index, 0);
}

#[test]
fn x11_output_is_trimmed() {
    let m = x11_window_metadata(9, "  main.rs - Code \n", " code\n");
    assert_eq!(m.active_window_title, "main.rs - Code");
    assert_eq!(m.app_bundle_id, "code");
    assert_eq!(m.browser_url, None);
}

#[test]
fn macos_output_is_split_at_first_bar() {
    let m = macos_window_metadata(3, "Safari|Inbox | Mail - Safari\n");
    assert_eq!(m.app_bundle_id, "Safari");
    assert_eq!(m.active_window_title, "Inbox | Mail - Safari");
    assert_eq!(m.browser_url, Some("Inbox | Mail".to_string()));
    let no_bar = macos_window_metadata(3, "Finder");
    assert_eq!(no_bar.app_bundle_id, "Finder");
    assert_eq!(no_bar.active_window_title, "");
    let empty = macos_window_metadata(3, "");
    assert_eq!(empty.app_bundle_id, "");
}
