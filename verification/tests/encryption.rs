use workshadow::privacy::encryption::{decrypt, encrypt, EncryptionError, NONCE_SIZE};

#[test]
fn test_encrypt_decrypt_round_trip() {
    let key = [42u8; 32];
    let plaintext = b"WorkShadow AI secret data";

    let encrypted = encrypt(&key, plaintext).unwrap();
    assert_ne!(encrypted, plaintext);

    let decrypted = decrypt(&key, &encrypted).unwrap();
    assert_eq!(decrypted, plaintext);
}

#[test]
fn encryption_test_decrypt_with_wrong_key_fails() {
    let key1 = [42u8; 32];
    let key2 = [99u8; 32];
    let plaintext = b"secret";

    let encrypted = encrypt(&key1, plaintext).unwrap();
    assert!(decrypt(&key2, &encrypted).is_err());
}

#[test]
fn encrypted_blob_is_nonce_plus_ciphertext_and_tag() {
    let key = [7u8; 32];
    let blob = encrypt(&key, b"abc").unwrap();
    // 12-byte nonce, 3 bytes of ciphertext, 16-byte GCM tag
    assert_eq!(blob.len(), NONCE_SIZE + 3 + 16);
}

#[test]
fn empty_plaintext_round_trips() {
    let key = [1u8; 32];
    let blob = encrypt(&key, b"").unwrap();
    assert_eq!(decrypt(&key, &blob).unwrap(), Vec::<u8>::new());
}

#[test]
fn short_blob_is_rejected() {
    let key = [1u8; 32];
    assert_eq!(decrypt(&key, &[0u8; 11]), Err(EncryptionError::TooShort));
}

#[test]
fn tampered_blob_fails_authentication() {
    let key = [3u8; 32];
    let mut blob = encrypt(&key, b"payload").unwrap();
    let last = blob.len() - 1;
    blob[last] ^= 1;
    assert_eq!(decrypt(&key, &blob), Err(EncryptionError::Cipher));
}

#[test]
fn fresh_nonces_differ() {
    let key = [5u8; 32];
    let a = encrypt(&key, b"same").unwrap();
    let b = encrypt(&key, b"same").unwrap();
    assert_ne!(a[..NONCE_SIZE], b[..NONCE_SIZE]);
}
