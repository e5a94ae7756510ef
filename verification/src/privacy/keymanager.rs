//! The data-at-rest key: a random seed kept in the OS keychain (or, failing
//! that, in a local key file), from which the AES-256 key is derived with SHA-256.
use vstd::prelude::*;

use sha2::{Digest, Sha256};
use vstd::string::StringSliceAdditionalSpecFns;

verus! {

/// SHA-256 digest of `data` (`sha2::Sha256::digest`).
pub uninterp spec fn sha256(data: Seq<u8>) -> Seq<u8>;

/// Computes `Sha256::digest(data)`; the result is named `sha256(data)`.
#[verifier::external_body]
fn sha256_digest(data: &[u8]) -> (r: [u8; 32])
    ensures
        r@ == sha256(data@),
{
    Sha256::digest(data).into()
}

/// The domain-separation prefix hashed in front of the seed.
pub open spec fn key_derivation_prefix() -> Seq<u8> {
    "workshadow-v1-".spec_bytes()
}

/// The AES-256 key for a seed: SHA-256 of the prefix followed by the seed.
pub open spec fn derived_key(seed: Seq<u8>) -> Seq<u8> {
    sha256(key_derivation_prefix() + seed)
}

/// Where the seed of the key is kept.
#[derive(Debug, Clone, Copy, PartialEq, Eq, Structural)]
pub enum KeyStorage {
    OsKeychain,
    LocalFile,
}

/// Manages the encryption key for data at rest.
pub struct KeyManager {
    key: [u8; 32],
    storage: KeyStorage,
}

impl KeyManager {
    /// Derives the 256-bit key from a seed.
    pub fn derive_key(seed: &[u8]) -> (key: [u8; 32])
        ensures
            key@ == derived_key(seed@),
    {
        let prefix = "workshadow-v1-".as_bytes();
        let mut input: Vec<u8> = Vec::new();
        input.extend_from_slice(prefix);
        input.extend_from_slice(seed);
        assert(input@ =~= key_derivation_prefix() + seed@);
        sha256_digest(input.as_slice())
    }

    /// The key manager for a seed kept in `storage`.
    pub fn from_seed(seed: &[u8], storage: KeyStorage) -> (m: Self)
        ensures
            m.key_bytes() == derived_key(seed@),
            m.storage_kind() == storage,
    {
        KeyManager { key: Self::derive_key(seed), storage }
    }

    pub closed spec fn key_bytes(&self) -> Seq<u8> {
        self.key@
    }

    pub closed spec fn storage_kind(&self) -> KeyStorage {
        self.storage
    }

    /// Get the 256-bit encryption key.
    pub fn key(&self) -> (k: &[u8; 32])
        ensures
            k@ == self.key_bytes(),
    {
        &self.key
    }

    /// Where the key is stored.
    pub fn storage(&self) -> (s: &KeyStorage)
        ensures
            *s == self.storage_kind(),
    {
        &self.storage
    }
}

/// The key depends on the seed alone: key managers built from equal seeds
/// hold equal keys, wherever the seeds are stored.
pub proof fn lemma_key_determined_by_seed(
    a: KeyManager,
    b: KeyManager,
    seed_a: Seq<u8>,
    seed_b: Seq<u8>,
)
    requires
        a.key_bytes() == derived_key(seed_a),
        b.key_bytes() == derived_key(seed_b),
        seed_a == seed_b,
    ensures
        a.key_bytes() == b.key_bytes(),
{
}

/// Length of a freshly generated seed.
pub const SEED_LEN: usize = 64;

/// Where key setup stands; each step names the outside work to do next.
/// Setup tries the OS keychain first, then the local key file (migrating a
/// file seed into the keychain), and otherwise generates a new seed, stored
/// in the keychain or, failing that, in the file.
#[derive(Debug, Clone)]
pub enum KeySetupStep {
    /// Read the seed from the OS keychain.
    LoadFromKeychain,
    /// Read the seed from the local key file.
    LoadFromFile,
    /// Store this seed (read from the file) in the OS keychain.
    MigrateToKeychain(Vec<u8>),
    /// Store this freshly generated seed in the OS keychain.
    StoreNewInKeychain(Vec<u8>),
    /// Write this seed to the local key file.
    SaveToFile(Vec<u8>),
    /// Setup is done: the seed and where it is kept.
    Ready(Vec<u8>, KeyStorage),
}

/// The outcome of the outside work a step asked for.
#[derive(Debug, Clone)]
pub enum KeySetupEvent {
    KeychainLoaded(Option<Vec<u8>>),
    FileLoaded(Option<Vec<u8>>),
    KeychainStored(bool),
    FileSaved,
}

/// The first step of key setup.
pub fn key_setup_start() -> (s: KeySetupStep)
    ensures
        s is LoadFromKeychain,
{
    KeySetupStep::LoadFromKeychain
}

/// Where setup goes after `step` when `event` reports the outcome of its
/// work; an event that does not answer the step leaves it unchanged.
/// `fresh` stands for the newly generated seed, which only the step after a
/// missing key file uses.
pub open spec fn key_setup_next(step: KeySetupStep, event: KeySetupEvent, fresh: Vec<u8>) -> KeySetupStep {
    match (step, event) {
        (KeySetupStep::LoadFromKeychain, KeySetupEvent::KeychainLoaded(Some(seed))) =>
            KeySetupStep::Ready(seed, KeyStorage::OsKeychain),
        (KeySetupStep::LoadFromKeychain, KeySetupEvent::KeychainLoaded(None)) =>
            KeySetupStep::LoadFromFile,
        (KeySetupStep::LoadFromFile, KeySetupEvent::FileLoaded(Some(seed))) =>
            KeySetupStep::MigrateToKeychain(seed),
        (KeySetupStep::LoadFromFile, KeySetupEvent::FileLoaded(None)) =>
            KeySetupStep::StoreNewInKeychain(fresh),
        (KeySetupStep::MigrateToKeychain(seed), KeySetupEvent::KeychainStored(ok)) =>
            KeySetupStep::Ready(
                seed,
                if ok {
                    KeyStorage::OsKeychain
                } else {
                    KeyStorage::LocalFile
                },
            ),
        (KeySetupStep::StoreNewInKeychain(seed), KeySetupEvent::KeychainStored(true)) =>
            KeySetupStep::Ready(seed, KeyStorage::OsKeychain),
        (KeySetupStep::StoreNewInKeychain(seed), KeySetupEvent::KeychainStored(false)) =>
            KeySetupStep::SaveToFile(seed),
        (KeySetupStep::SaveToFile(seed), KeySetupEvent::FileSaved) =>
            KeySetupStep::Ready(seed, KeyStorage::LocalFile),
        (s, _) => s,
    }
}

/// Whether `step` generates a seed when `event` arrives.
pub open spec fn key_setup_generates(step: KeySetupStep, event: KeySetupEvent) -> bool {
    step is LoadFromFile && event matches KeySetupEvent::FileLoaded(None)
}

/// Advances key setup by one event. A new seed of `SEED_LEN` random bytes is
/// generated when neither the keychain nor the key file holds one.
pub fn next_key_setup_step(step: KeySetupStep, event: KeySetupEvent) -> (r: KeySetupStep)
    ensures
        exists|fresh: Vec<u8>|
            (key_setup_generates(step, event) ==> fresh@.len() == SEED_LEN) && r
                == #[trigger] key_setup_next(step, event, fresh),
{
    let fresh = if matches!(step, KeySetupStep::LoadFromFile) && matches!(event, KeySetupEvent::FileLoaded(None)) {
        crate::privacy::encryption::random_bytes(SEED_LEN)
    } else {
        Vec::new()
    };
    let ghost f = fresh;
    let r = match (step, event) {
        (KeySetupStep::LoadFromKeychain, KeySetupEvent::KeychainLoaded(Some(seed))) =>
            KeySetupStep::Ready(seed, KeyStorage::OsKeychain),
        (KeySetupStep::LoadFromKeychain, KeySetupEvent::KeychainLoaded(None)) =>
            KeySetupStep::LoadFromFile,
        (KeySetupStep::LoadFromFile, KeySetupEvent::FileLoaded(Some(seed))) =>
            KeySetupStep::MigrateToKeychain(seed),
        (KeySetupStep::LoadFromFile, KeySetupEvent::FileLoaded(None)) =>
            KeySetupStep::StoreNewInKeychain(fresh),
        (KeySetupStep::MigrateToKeychain(seed), KeySetupEvent::KeychainStored(ok)) => {
            let storage = if ok {
                KeyStorage::OsKeychain
            } else {
                KeyStorage::LocalFile
            };
            KeySetupStep::Ready(seed, storage)
        },
        (KeySetupStep::StoreNewInKeychain(seed), KeySetupEvent::KeychainStored(ok)) => {
            if ok {
                KeySetupStep::Ready(seed, KeyStorage::OsKeychain)
            } else {
                KeySetupStep::SaveToFile(seed)
            }
        },
        (KeySetupStep::SaveToFile(seed), KeySetupEvent::FileSaved) =>
            KeySetupStep::Ready(seed, KeyStorage::LocalFile),
        (s, _) => s,
    };
    assert(r == key_setup_next(step, event, f));
    r
}

/// Setup only settles on the keychain after the keychain gave or took the
/// seed, and only settles on the key file after the keychain refused it.
pub proof fn lemma_key_storage_follows_keychain_outcome(
    step: KeySetupStep,
    event: KeySetupEvent,
    fresh: Vec<u8>,
)
    requires
        !(step is Ready),
    ensures
        key_setup_next(step, event, fresh) matches KeySetupStep::Ready(_, KeyStorage::OsKeychain)
            ==> (event matches KeySetupEvent::KeychainLoaded(Some(_)))
            || event == KeySetupEvent::KeychainStored(true),
        key_setup_next(step, event, fresh) matches KeySetupStep::Ready(_, KeyStorage::LocalFile)
            ==> event == KeySetupEvent::KeychainStored(false) || event is FileSaved,
        key_setup_next(step, event, fresh) is SaveToFile && !(step is SaveToFile) ==> event
            == KeySetupEvent::KeychainStored(false),
{
}

/// The seed found in the keychain, or read from the key file, is the one
/// setup settles on: it is never replaced by another.
pub proof fn lemma_found_seed_is_kept(seed: Vec<u8>, ok: bool, fresh: Vec<u8>)
    ensures
        key_setup_next(
            KeySetupStep::LoadFromKeychain,
            KeySetupEvent::KeychainLoaded(Some(seed)),
            fresh,
        ) == KeySetupStep::Ready(seed, KeyStorage::OsKeychain),
        key_setup_next(
            KeySetupStep::MigrateToKeychain(seed),
            KeySetupEvent::KeychainStored(ok),
            fresh,
        ) matches KeySetupStep::Ready(s, _) && s == seed,
{
}


/// What the keychain and the key file answer to a step, given the seed each
/// holds and whether the keychain accepts a store.
pub open spec fn store_answer(
    step: KeySetupStep,
    keychain: Option<Vec<u8>>,
    file: Option<Vec<u8>>,
    store_ok: bool,
) -> KeySetupEvent {
    match step {
        KeySetupStep::LoadFromKeychain => KeySetupEvent::KeychainLoaded(keychain),
        KeySetupStep::LoadFromFile => KeySetupEvent::FileLoaded(file),
        KeySetupStep::MigrateToKeychain(_) => KeySetupEvent::KeychainStored(store_ok),
        KeySetupStep::StoreNewInKeychain(_) => KeySetupEvent::KeychainStored(store_ok),
        _ => KeySetupEvent::FileSaved,
    }
}

/// The keychain's seed after a step: a store that is accepted replaces it.
pub open spec fn keychain_after(step: KeySetupStep, keychain: Option<Vec<u8>>, store_ok: bool) -> Option<
    Vec<u8>,
> {
    match step {
        KeySetupStep::MigrateToKeychain(seed) => if store_ok {
            Some(seed)
        } else {
            keychain
        },
        KeySetupStep::StoreNewInKeychain(seed) => if store_ok {
            Some(seed)
        } else {
            keychain
        },
        _ => keychain,
    }
}

/// The key file's seed after a step: only `SaveToFile` writes it.
pub open spec fn file_after(step: KeySetupStep, file: Option<Vec<u8>>) -> Option<Vec<u8>> {
    match step {
        KeySetupStep::SaveToFile(seed) => Some(seed),
        _ => file,
    }
}

/// Key setup run against a keychain and a key file that change only through
/// its own steps, for at most `fuel` steps: the last step, and the keychain's
/// and the file's seeds afterwards.
pub open spec fn setup_run(
    step: KeySetupStep,
    keychain: Option<Vec<u8>>,
    file: Option<Vec<u8>>,
    store_ok: bool,
    fresh: Vec<u8>,
    fuel: nat,
) -> (KeySetupStep, Option<Vec<u8>>, Option<Vec<u8>>)
    decreases fuel,
{
    if fuel == 0 || step is Ready {
        (step, keychain, file)
    } else {
        setup_run(
            key_setup_next(step, store_answer(step, keychain, file, store_ok), fresh),
            keychain_after(step, keychain, store_ok),
            file_after(step, file),
            store_ok,
            fresh,
            (fuel - 1) as nat,
        )
    }
}

/// A whole key setup from the start (it never takes more than four steps).
pub open spec fn full_setup(
    keychain: Option<Vec<u8>>,
    file: Option<Vec<u8>>,
    store_ok: bool,
    fresh: Vec<u8>,
) -> (KeySetupStep, Option<Vec<u8>>, Option<Vec<u8>>) {
    setup_run(KeySetupStep::LoadFromKeychain, keychain, file, store_ok, fresh, 4)
}

/// The seed a finished setup settled on.
pub open spec fn settled_seed(step: KeySetupStep) -> Seq<u8> {
    match step {
        KeySetupStep::Ready(seed, _) => seed@,
        _ => Seq::empty(),
    }
}

/// The key persists: setup always finishes; it settles on the keychain's
/// seed, else on the key file's, else on a fresh one; a key file that holds a
/// seed is never rewritten; and a second setup, run against what the first
/// left in the keychain and the key file, settles on the same seed (so the
/// same key), whether or not the keychain accepts stores.
pub proof fn lemma_key_persists(
    keychain: Option<Vec<u8>>,
    file: Option<Vec<u8>>,
    store_ok1: bool,
    fresh1: Vec<u8>,
    store_ok2: bool,
    fresh2: Vec<u8>,
)
    ensures
        ({
            let (r1, k1, f1) = full_setup(keychain, file, store_ok1, fresh1);
            let (r2, k2, f2) = full_setup(k1, f1, store_ok2, fresh2);
            &&& r1 is Ready
            &&& r2 is Ready
            &&& settled_seed(r1) == match keychain {
                Some(k) => k@,
                None => match file {
                    Some(s) => s@,
                    None => fresh1@,
                },
            }
            &&& (file is Some ==> f1 == file)
            &&& settled_seed(r2) == settled_seed(r1)
            &&& derived_key(settled_seed(r2)) == derived_key(settled_seed(r1))
        }),
{
    reveal_with_fuel(setup_run, 5);
}

} // verus!
