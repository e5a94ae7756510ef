use workshadow::privacy::keymanager::{
    key_setup_start, next_key_setup_step, KeyManager, KeySetupEvent, KeySetupStep, KeyStorage,
    SEED_LEN,
};

#[test]
fn test_key_generation_deterministic_from_seed() {
    let seed = b"test-seed-12345";
    let key1 = KeyManager::derive_key(seed);
    let key2 = KeyManager::derive_key(seed);
    assert_eq!(key1, key2);
}

#[test]
fn test_different_seeds_different_keys() {
    let key1 = KeyManager::derive_key(b"seed-a");
    let key2 = KeyManager::derive_key(b"seed-b");
    assert_ne!(key1, key2);
}

#[test]
fn derived_key_is_sha256_of_prefixed_seed() {
    // SHA-256 of the bytes "workshadow-v1-seed-a"
    let expected: [u8; 32] = [
        0x3b, 0x53, 0xe6, 0xd9, 0x51, 0x27, 0x41, 0x0e, 0x96, 0x27, 0x9a, 0xc9, 0x29, 0x86, 0xea,
        0x56, 0x68, 0xd9, 0x1d, 0x45, 0xa1, 0xd1, 0x3c, 0xe0, 0x56, 0xd7, 0x45, 0x93, 0xbd, 0x27,
        0xb3, 0x7b,
    ];
    assert_eq!(KeyManager::derive_key(b"seed-a"), expected);
}

#[test]
fn key_manager_from_seed_reports_storage() {
    let km = KeyManager::from_seed(b"seed", KeyStorage::LocalFile);
    assert_eq!(*km.storage(), KeyStorage::LocalFile);
    assert_eq!(*km.key(), KeyManager::derive_key(b"seed"));
}

fn ready(step: KeySetupStep) -> (Vec<u8>, KeyStorage) {
    match step {
        KeySetupStep::Ready(seed, storage) => (seed, storage),
        other => panic!("not ready: {:?}", other),
    }
}

#[test]
fn key_setup_uses_keychain_seed() {
    let s = key_setup_start();
    let s = next_key_setup_step(s, KeySetupEvent::KeychainLoaded(Some(vec![1, 2, 3])));
    assert_eq!(ready(s), (vec![1, 2, 3], KeyStorage::OsKeychain));
}

#[test]
fn key_setup_migrates_file_seed() {
    let s = key_setup_start();
    let s = next_key_setup_step(s, KeySetupEvent::KeychainLoaded(None));
    assert!(matches!(s, KeySetupStep::LoadFromFile));
    let s = next_key_setup_step(s, KeySetupEvent::FileLoaded(Some(vec![9; 5])));
    assert!(matches!(s, KeySetupStep::MigrateToKeychain(_)));
    let stays_in_file = next_key_setup_step(s.clone(), KeySetupEvent::KeychainStored(false));
    assert_eq!(ready(stays_in_file), (vec![9; 5], KeyStorage::LocalFile));
    let moved = next_key_setup_step(s, KeySetupEvent::KeychainStored(true));
    assert_eq!(ready(moved), (vec![9; 5], KeyStorage::OsKeychain));
}

#[test]
fn key_setup_generates_and_falls_back_to_file() {
    let s = key_setup_start();
    let s = next_key_setup_step(s, KeySetupEvent::KeychainLoaded(None));
    let s = next_key_setup_step(s, KeySetupEvent::FileLoaded(None));
    let seed = match &s {
        KeySetupStep::StoreNewInKeychain(seed) => seed.clone(),
        other => panic!("unexpected {:?}", other),
    };
    assert_eq!(seed.len(), SEED_LEN);
    let s = next_key_setup_step(s, KeySetupEvent::KeychainStored(false));
    assert!(matches!(s, KeySetupStep::SaveToFile(_)));
    let s = next_key_setup_step(s, KeySetupEvent::FileSaved);
    assert_eq!(ready(s), (seed, KeyStorage::LocalFile));
}

#[test]
fn key_setup_ignores_unrelated_event() {
    let s = next_key_setup_step(KeySetupStep::LoadFromFile, KeySetupEvent::FileSaved);
    assert!(matches!(s, KeySetupStep::LoadFromFile));
}

/// Runs key setup against an in-memory keychain and key file.
fn run_setup(keychain: &mut Option<Vec<u8>>, file: &mut Option<Vec<u8>>, store_ok: bool) -> Vec<u8> {
    let mut step = key_setup_start();
    loop {
        let event = match &step {
            KeySetupStep::LoadFromKeychain => KeySetupEvent::KeychainLoaded(keychain.clone()),
            KeySetupStep::LoadFromFile => KeySetupEvent::FileLoaded(file.clone()),
            KeySetupStep::MigrateToKeychain(seed) | KeySetupStep::StoreNewInKeychain(seed) => {
                if store_ok {
                    *keychain = Some(seed.clone());
                }
                KeySetupEvent::KeychainStored(store_ok)
            }
            KeySetupStep::SaveToFile(seed) => {
                *file = Some(seed.clone());
                KeySetupEvent::FileSaved
            }
            KeySetupStep::Ready(seed, _) => return seed.clone(),
        };
        step = next_key_setup_step(step, event);
    }
}

#[test]
fn key_persists_across_setups() {
    for store_ok in [false, true] {
        let seed = b"test-persistence-seed-1234567890".to_vec();
        let mut keychain = None;
        let mut file = Some(seed.clone());
        let s1 = run_setup(&mut keychain, &mut file, store_ok);
        let s2 = run_setup(&mut keychain, &mut file, store_ok);
        assert_eq!(s1, seed);
        assert_eq!(file, Some(seed.clone()));
        assert_eq!(
            KeyManager::from_seed(&s1, KeyStorage::LocalFile).key(),
            KeyManager::from_seed(&s2, KeyStorage::LocalFile).key()
        );
        let mut keychain = None;
        let mut file = None;
        let f1 = run_setup(&mut keychain, &mut file, store_ok);
        let f2 = run_setup(&mut keychain, &mut file, store_ok);
        assert_eq!(f1.len(), 64);
        assert_eq!(f1, f2);
    }
}
