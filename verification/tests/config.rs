use workshadow::config::home_relative;
use workshadow::privacy::PrivacyConfig;

#[test]
fn home_relative_paths() {
    assert_eq!(home_relative("~/.workshadow/data"), Some(".workshadow/data".to_string()));
    assert_eq!(home_relative("~/"), Some(String::new()));
    assert_eq!(home_relative("/var/data"), None);
    assert_eq!(home_relative("~data"), None);
    assert_eq!(home_relative("~"), None);
}

#[test]
fn default_privacy_config() {
    let c = PrivacyConfig::default();
    assert_eq!(
        c.excluded_apps,
        vec!["1Password", "Bitwarden", "LastPass", "KeePass", "Signal", "WhatsApp"]
    );
    assert_eq!(c.excluded_url_patterns, vec!["*bank*", "*paypal*"]);
    assert!(c.recording_indicator);
    assert_eq!(c.global_hotkey_pause, "CmdOrCtrl+Shift+P");
}
