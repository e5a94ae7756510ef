use workshadow::search::url::host_of;
use workshadow::search::{SearchConfig, SearchFilters};

#[test]
fn default_search_config() {
    let c = SearchConfig::default();
    assert_eq!(c.index_dir, "~/.workshadow/index");
    assert_eq!(c.max_results, 50);
}

#[test]
fn empty_filters_admit_everything() {
    let f = SearchFilters::default();
    assert!(f.admits(0, "", None));
    assert!(f.admits(u64::MAX, "com.any", None));
}

#[test]
fn date_bounds_are_inclusive() {
    let f = SearchFilters { date_from: Some(100), date_to: Some(200), ..Default::default() };
    assert!(!f.admits(99, "a", None));
    assert!(f.admits(100, "a", None));
    assert!(f.admits(200, "a", None));
    assert!(!f.admits(201, "a", None));
}

#[test]
fn app_filter_matches_exact_ids() {
    let f = SearchFilters {
        app_ids: Some(vec!["code".to_string(), "firefox".to_string()]),
        ..Default::default()
    };
    assert!(f.admits(5, "firefox", None));
    assert!(!f.admits(5, "Firefox", None));
    assert!(!f.admits(5, "fire", None));
    let none = SearchFilters { app_ids: Some(vec![]), ..Default::default() };
    assert!(!none.admits(5, "code", None));
}

#[test]
fn url_domain_filter_checks_the_host() {
    let f = SearchFilters {
        url_domains: Some(vec!["github.com".to_string(), "docs.rs".to_string()]),
        ..Default::default()
    };
    assert!(f.admits(5, "firefox", Some("https://github.com/rust-lang/rust")));
    assert!(f.admits(5, "firefox", Some("https://user@docs.rs:443/vstd?x=1")));
    assert!(f.admits(5, "firefox", Some("github.com/issues")));
    assert!(!f.admits(5, "firefox", Some("https://gist.github.com/")));
    assert!(!f.admits(5, "firefox", Some("https://example.com/github.com")));
    assert!(!f.admits(5, "code", None));
    let none = SearchFilters { url_domains: Some(vec![]), ..Default::default() };
    assert!(!none.admits(5, "firefox", Some("https://github.com/")));
}

#[test]
fn url_hosts() {
    let h = |u: &str| host_of(u).into_iter().collect::<String>();
    assert_eq!(h("https://github.com/a/b"), "github.com");
    assert_eq!(h("http://user:pw@example.org:8080/x"), "example.org");
    assert_eq!(h("example.com/path"), "example.com");
    assert_eq!(h("https://a.b?q=1#frag"), "a.b");
    assert_eq!(h("file:///tmp/x"), "");
    assert_eq!(h(""), "");
}
