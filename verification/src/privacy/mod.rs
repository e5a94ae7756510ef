//! Privacy: encryption at rest, the key, capture exclusions and the audit log.
pub mod audit;
pub mod encryption;
pub mod exclusions;
pub mod keymanager;

use vstd::prelude::*;

verus! {

/// Privacy-related configuration.
#[derive(Debug, Clone)]
pub struct PrivacyConfig {
    pub excluded_apps: Vec<String>,
    pub excluded_url_patterns: Vec<String>,
    pub recording_indicator: bool,
    pub global_hotkey_pause: String,
}

impl Default for PrivacyConfig {
    /// Password managers and private messengers are excluded, and banking and
    /// payment sites.
    fn default() -> (c: Self)
        ensures
            crate::text::string_views(c.excluded_apps@) == seq![
                "1Password"@,
                "Bitwarden"@,
                "LastPass"@,
                "KeePass"@,
                "Signal"@,
                "WhatsApp"@,
            ],
            crate::text::string_views(c.excluded_url_patterns@) == seq!["*bank*"@, "*paypal*"@],
            c.recording_indicator,
            c.global_hotkey_pause@ == "CmdOrCtrl+Shift+P"@,
    {
        let excluded_apps = vec![
            String::from_str("1Password"),
            String::from_str("Bitwarden"),
            String::from_str("LastPass"),
            String::from_str("KeePass"),
            String::from_str("Signal"),
            String::from_str("WhatsApp"),
        ];
        let excluded_url_patterns = vec![String::from_str("*bank*"), String::from_str("*paypal*")];
        assert(crate::text::string_views(excluded_apps@) =~= seq![
            "1Password"@,
            "Bitwarden"@,
            "LastPass"@,
            "KeePass"@,
            "Signal"@,
            "WhatsApp"@,
        ]);
        assert(crate::text::string_views(excluded_url_patterns@) =~= seq!["*bank*"@, "*paypal*"@]);
        PrivacyConfig {
            excluded_apps,
            excluded_url_patterns,
            recording_indicator: true,
            global_hotkey_pause: String::from_str("CmdOrCtrl+Shift+P"),
        }
    }
}

} // verus!
