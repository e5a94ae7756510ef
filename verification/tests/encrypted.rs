use workshadow::storage::encrypted::{is_encrypted, should_encrypt};

#[test]
fn test_is_encrypted() {
    assert!(is_encrypted("segment_123.mkv.enc"));
    assert!(is_encrypted("data.jsonl.enc"));
    assert!(!is_encrypted("segment_123.mkv"));
    assert!(!is_encrypted("data.jsonl"));
}

#[test]
fn only_the_file_extensions_count() {
    assert!(is_encrypted("/data/segments/segment_1.mkv.enc"));
    assert!(is_encrypted("/data/x.enc"));
    assert!(is_encrypted("a.enc.tmp"));
    assert!(!is_encrypted("/data/.encache/segment_1.mkv"));
    assert!(!is_encrypted("segment_1.encoder.mkv"));
    assert!(!is_encrypted("/data/x.enc/segment_1.mkv"));
    assert!(!is_encrypted(".enc"));
    assert!(is_encrypted("..enc"));
    assert!(!is_encrypted("enc"));
    assert!(!is_encrypted(""));
}

#[test]
fn sweep_selects_segment_files() {
    assert!(should_encrypt(Some("mkv")));
    assert!(should_encrypt(Some("jsonl")));
    assert!(!should_encrypt(Some("enc")));
    assert!(!should_encrypt(Some("txt")));
    assert!(!should_encrypt(None));
}

#[test]
fn enc_suffix_is_recognized() {
    for name in ["a", "segment_1.mkv", "x.enc", ".hidden"] {
        assert!(is_encrypted(&format!("{}.enc", name)));
        assert!(is_encrypted(&format!("/data/.encache/{}.enc", name)));
    }
    // a bare `.enc` is a hidden file's name, not an extension
    assert!(!is_encrypted(".enc"));
}
