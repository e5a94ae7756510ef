use workshadow::privacy::exclusions::ExclusionFilter;

fn test_filter() -> ExclusionFilter {
    ExclusionFilter::new(
        vec!["1Password".to_string(), "Bitwarden".to_string()],
        vec!["*bank*".to_string(), "*paypal*".to_string()],
    )
}

#[test]
fn test_app_exclusion() {
    let filter = test_filter();
    assert!(filter.is_app_excluded("1Password 8"));
    assert!(filter.is_app_excluded("bitwarden")); // case-insensitive
    assert!(!filter.is_app_excluded("Visual Studio Code"));
}

#[test]
fn test_url_exclusion() {
    let filter = test_filter();
    assert!(filter.is_url_excluded("https://mybank.com/login"));
    assert!(filter.is_url_excluded("https://www.paypal.com/checkout"));
    assert!(!filter.is_url_excluded("https://github.com"));
}

#[test]
fn exclusion_is_case_insensitive_both_ways() {
    let filter = test_filter();
    assert!(filter.is_app_excluded("BITWARDEN Desktop"));
    assert!(filter.is_url_excluded("HTTPS://WWW.PAYPAL.COM"));
}

#[test]
fn empty_filter_excludes_nothing() {
    let filter = ExclusionFilter::new(vec![], vec![]);
    assert!(!filter.is_app_excluded("1Password"));
    assert!(!filter.is_url_excluded("https://mybank.com"));
}

#[test]
fn star_only_pattern_matches_every_url() {
    let filter = ExclusionFilter::new(vec![], vec!["**".to_string()]);
    assert!(filter.is_url_excluded("https://example.org"));
    assert!(filter.is_url_excluded(""));
}
