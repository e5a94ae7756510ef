//! AES-256-GCM encryption of data at rest. An encrypted blob is the 12-byte
//! nonce followed by the AES-GCM ciphertext (which carries its tag).
use vstd::prelude::*;

use aes_gcm::aead::rand_core::RngCore;
use aes_gcm::aead::{Aead, KeyInit, OsRng};
use aes_gcm::{Aes256Gcm, Nonce};

use crate::text::copy_range;

verus! {

#[verifier::external_type_specification]
#[verifier::external_body]
pub struct ExAeadError(aes_gcm::Error);

/// Length of the nonce that prefixes every encrypted blob.
pub const NONCE_SIZE: usize = 12;

/// Length of the authentication tag that ends every ciphertext.
pub const TAG_SIZE: usize = 16;

/// The longest plaintext AES-GCM encrypts (2^36 bytes).
pub const MAX_PLAINTEXT_LEN: u64 = 68_719_476_736;

/// Why encryption or decryption failed.
#[derive(Debug, Clone, Copy, PartialEq, Eq, Structural)]
pub enum EncryptionError {
    /// The blob is shorter than a nonce.
    TooShort,
    /// The cipher refused the input (authentication failed on decryption).
    Cipher,
}

/// AES-256-GCM encryption of `plaintext` under `key` and `nonce`
/// (`Aes256Gcm::encrypt`); `None` when the cipher refuses.
pub uninterp spec fn aes256gcm_seal(key: Seq<u8>, nonce: Seq<u8>, plaintext: Seq<u8>) -> Option<
    Seq<u8>,
>;

/// AES-256-GCM decryption of `ciphertext` under `key` and `nonce`
/// (`Aes256Gcm::decrypt`); `None` when authentication fails.
pub uninterp spec fn aes256gcm_open(key: Seq<u8>, nonce: Seq<u8>, ciphertext: Seq<u8>) -> Option<
    Seq<u8>,
>;

/// Fills `len` bytes from the operating system's random source
/// (`OsRng::fill_bytes`). Nothing is stated of the bytes but their number.
#[verifier::external_body]
pub(crate) fn random_bytes(len: usize) -> (r: Vec<u8>)
    ensures
        r@.len() == len,
{
    let mut v = vec![0u8; len];
    OsRng.fill_bytes(&mut v);
    v
}

/// `Aes256Gcm::encrypt` of `plaintext` under `key` and the 12-byte `nonce`;
/// its result is named `aes256gcm_seal`. As the crate's source shows, it
/// refuses exactly the plaintexts longer than 2^36 bytes, and otherwise
/// returns the encrypted bytes followed by a 16-byte tag.
#[verifier::external_body]
fn seal(key: &[u8; 32], nonce: &[u8], plaintext: &[u8]) -> (r: Result<Vec<u8>, aes_gcm::Error>)
    requires
        nonce@.len() == NONCE_SIZE,
    ensures
        (r is Ok) == (plaintext@.len() <= MAX_PLAINTEXT_LEN),
        r matches Ok(c) ==> c@.len() == plaintext@.len() + TAG_SIZE,
        match r {
            Ok(c) => aes256gcm_seal(key@, nonce@, plaintext@) == Some(c@),
            Err(_) => aes256gcm_seal(key@, nonce@, plaintext@) is None,
        },
{
    Aes256Gcm::new(key.into()).encrypt(Nonce::from_slice(nonce), plaintext)
}

/// `Aes256Gcm::decrypt` of `ciphertext` under `key` and the 12-byte `nonce`;
/// its result is named `aes256gcm_open`. As for any AEAD cipher, decrypting
/// what encryption produced under the same key and nonce gives back the
/// plaintext; a plaintext is the ciphertext less its 16-byte tag.
#[verifier::external_body]
fn open(key: &[u8; 32], nonce: &[u8], ciphertext: &[u8]) -> (r: Result<Vec<u8>, aes_gcm::Error>)
    requires
        nonce@.len() == NONCE_SIZE,
    ensures
        r matches Ok(p) ==> p@.len() + TAG_SIZE == ciphertext@.len(),
        match r {
            Ok(p) => aes256gcm_open(key@, nonce@, ciphertext@) == Some(p@),
            Err(_) => aes256gcm_open(key@, nonce@, ciphertext@) is None,
        },
        forall|p: Seq<u8>|
            #[trigger] aes256gcm_seal(key@, nonce@, p) == Some(ciphertext@) ==> r is Ok
                && r->Ok_0@ == p,
{
    Aes256Gcm::new(key.into()).decrypt(Nonce::from_slice(nonce), ciphertext)
}

/// `blob` is a nonce followed by the encryption of `plaintext` under `key` and that nonce.
pub open spec fn is_sealed_blob(key: Seq<u8>, plaintext: Seq<u8>, blob: Seq<u8>) -> bool {
    blob.len() >= NONCE_SIZE && aes256gcm_seal(key, blob.take(NONCE_SIZE as int), plaintext)
        == Some(blob.skip(NONCE_SIZE as int))
}

/// What decrypting `blob` under `key` gives: `None` when it is shorter than a
/// nonce or fails authentication.
pub open spec fn opened_blob(key: Seq<u8>, blob: Seq<u8>) -> Option<Seq<u8>> {
    if blob.len() < NONCE_SIZE {
        None
    } else {
        aes256gcm_open(key, blob.take(NONCE_SIZE as int), blob.skip(NONCE_SIZE as int))
    }
}

/// Encrypt data using AES-256-GCM under a fresh random nonce.
/// Returns nonce prepended to ciphertext. Fails only on plaintexts longer
/// than AES-GCM allows.
pub fn encrypt(key: &[u8; 32], plaintext: &[u8]) -> (r: Result<Vec<u8>, EncryptionError>)
    ensures
        (r is Ok) == (plaintext@.len() <= MAX_PLAINTEXT_LEN),
        r matches Ok(blob) ==> is_sealed_blob(key@, plaintext@, blob@) && blob@.len()
            == NONCE_SIZE + plaintext@.len() + TAG_SIZE,
        r matches Err(e) ==> e == EncryptionError::Cipher,
{
    let mut nonce = random_bytes(NONCE_SIZE);
    match seal(key, nonce.as_slice(), plaintext) {
        Ok(ciphertext) => {
            let ghost n = nonce@;
            let mut ct = ciphertext;
            let ghost c = ct@;
            nonce.append(&mut ct);
            assert(nonce@.take(NONCE_SIZE as int) =~= n);
            assert(nonce@.skip(NONCE_SIZE as int) =~= c);
            Ok(nonce)
        },
        Err(_) => Err(EncryptionError::Cipher),
    }
}

/// Decrypt data encrypted with `encrypt`.
/// Expects nonce prepended to ciphertext.
pub fn decrypt(key: &[u8; 32], data: &[u8]) -> (r: Result<Vec<u8>, EncryptionError>)
    ensures
        data@.len() < NONCE_SIZE ==> r == Err::<Vec<u8>, EncryptionError>(EncryptionError::TooShort),
        data@.len() >= NONCE_SIZE ==> match r {
            Ok(p) => opened_blob(key@, data@) == Some(p@) && NONCE_SIZE + p@.len() + TAG_SIZE
                == data@.len(),
            Err(e) => e == EncryptionError::Cipher && opened_blob(key@, data@) is None,
        },
        forall|p: Seq<u8>| #[trigger] is_sealed_blob(key@, p, data@) ==> (r matches Ok(q) && q@ == p),
{
    if data.len() < NONCE_SIZE {
        return Err(EncryptionError::TooShort);
    }
    let nonce = copy_range(data, 0, NONCE_SIZE);
    let ciphertext = copy_range(data, NONCE_SIZE, data.len());
    assert(nonce@ =~= data@.take(NONCE_SIZE as int));
    assert(ciphertext@ =~= data@.skip(NONCE_SIZE as int));
    match open(key, nonce.as_slice(), ciphertext.as_slice()) {
        Ok(p) => Ok(p),
        Err(_) => Err(EncryptionError::Cipher),
    }
}

} // verus!
