//! The keyring: the one entry point that makes, stores, lists and moves
//! keys.

use vstd::prelude::*;
use crate::algorithm::{
    address_of, algorithm_name, all_hardened, derive_key_pair, every_level_hardened,
    key_pair_of, keys_view, public_key_of, public_of, well_formed_key, AlgorithmId,
    AlgorithmRegistry, KeyPairView, PublicKey, PublicKeyView,
};
use crate::bytes::copy_bytes;
use crate::armor::{armor, key_of_armor, lemma_key_of_armor, unarmor, ArmoredKey};
use crate::backend::{
    delete_result, get_result, is_listing, keyed_by_name, rename_result, Backend, Entries,
};
use crate::codec::{
    open, open_result, seal_under, KdfAlgorithm, KdfParams, DEFAULT_ROUNDS, NONCE_LEN, SALT_LEN,
    TAG_LEN,
};
use crate::entry::{entries_view, type_of, EntryView, KeyEntry, KeyMaterial, KeyType, MaterialView};
use crate::error::KeyringError;
use crate::hd_path::{account_levels, path_of_text, HDPath, HARDENED};
use crate::mnemonic::{
    accepted_entropy_bits, is_mnemonic, seed_of, word_count, Mnemonic, DEFAULT_ENTROPY_BITS,
};
use crate::multisig::{compose, compose_result, multisig_bytes, MultisigView};
use crate::stored::kind_name;
use crate::text::{
    chars_of, field_line, hex_text, push_field, string_of, texts_view, write_hex_field,
};

verus! {

/// The coin type of a path when none is given.
pub const DEFAULT_COIN_TYPE: u32 = 118;

/// What a keyring uses where the caller names nothing else: the numbers
/// of a derivation path, the entropy behind a new mnemonic, and the rounds
/// in which a password is stretched when a secret is sealed.
#[derive(Clone, Copy, Debug, PartialEq, Eq, Structural)]
pub struct KeyringDefaults {
    pub coin_type: u32,
    pub account: u32,
    pub index: u32,
    pub entropy_bits: u32,
    pub kdf_rounds: u32,
}

impl KeyringDefaults {
    /// Coin type 118, account 0, index 0, 256 bits of entropy, and the
    /// rounds of stretching that this library uses by default.
    pub fn standard() -> (d: KeyringDefaults)
        ensures
            d == (KeyringDefaults {
                coin_type: DEFAULT_COIN_TYPE,
                account: 0,
                index: 0,
                entropy_bits: DEFAULT_ENTROPY_BITS,
                kdf_rounds: DEFAULT_ROUNDS,
            }),
    {
        KeyringDefaults {
            coin_type: DEFAULT_COIN_TYPE,
            account: 0,
            index: 0,
            entropy_bits: DEFAULT_ENTROPY_BITS,
            kdf_rounds: DEFAULT_ROUNDS,
        }
    }
}

/// The path of a new account: the one that the caller wrote out, or the
/// standard layout with the defaults.
pub open spec fn resolved_path(hd_path: Option<Seq<char>>, d: KeyringDefaults) -> Result<
    Seq<u32>,
    KeyringError,
> {
    match hd_path {
        Some(text) => match path_of_text(text) {
            Some(levels) => Ok(levels),
            None => Err(KeyringError::IncompatibleOptions),
        },
        None => if d.coin_type < HARDENED && d.account < HARDENED && d.index < HARDENED {
            Ok(account_levels(d.coin_type, d.account, d.index))
        } else {
            Err(KeyringError::IncompatibleOptions)
        },
    }
}

/// What a new account is made from: the path and the key pair at its end.
pub struct AccountPlan {
    pub path: Seq<u32>,
    pub pair: KeyPairView,
}

/// What is settled of a new account before its keys are derived, in the
/// order in which it is looked at: the path, the algorithm, that an
/// ed25519 key has hardened levels only, and the name where the account is
/// kept. Nothing of this depends on the mnemonic.
pub open spec fn account_precheck(
    entries: Entries,
    has_algorithm: bool,
    defaults: KeyringDefaults,
    name: Seq<char>,
    hd_path: Option<Seq<char>>,
    algorithm: AlgorithmId,
    dry_run: bool,
) -> Result<Seq<u32>, KeyringError> {
    match resolved_path(hd_path, defaults) {
        Err(e) => Err(e),
        Ok(path) => if !has_algorithm {
            Err(KeyringError::UnsupportedAlgorithm)
        } else if algorithm == AlgorithmId::Ed25519 && !all_hardened(path) {
            Err(KeyringError::IncompatibleOptions)
        } else if !dry_run && entries.contains_key(name) {
            Err(KeyringError::AlreadyExists)
        } else {
            Ok(path)
        },
    }
}

/// What making an account comes to before anything is sealed or stored:
/// what is settled ahead of the keys, and the key pair at the end of the
/// path.
pub open spec fn account_plan(
    entries: Entries,
    has_algorithm: bool,
    defaults: KeyringDefaults,
    name: Seq<char>,
    phrase: Seq<char>,
    passphrase: Seq<char>,
    hd_path: Option<Seq<char>>,
    algorithm: AlgorithmId,
    dry_run: bool,
) -> Result<AccountPlan, KeyringError> {
    match account_precheck(entries, has_algorithm, defaults, name, hd_path, algorithm, dry_run) {
        Err(e) => Err(e),
        Ok(path) => match key_pair_of(algorithm, seed_of(phrase, passphrase), path) {
            Err(e) => Err(e),
            Ok(pair) => Ok(AccountPlan { path, pair }),
        },
    }
}

/// In a dry run the same mnemonic, passphrase, path and algorithm give the
/// same keys, whatever the name and whatever is stored.
pub proof fn lemma_account_keys_are_repeatable(
    entries: Entries,
    other_entries: Entries,
    has_algorithm: bool,
    defaults: KeyringDefaults,
    name: Seq<char>,
    other_name: Seq<char>,
    phrase: Seq<char>,
    passphrase: Seq<char>,
    hd_path: Option<Seq<char>>,
    algorithm: AlgorithmId,
)
    ensures
        account_plan(
            entries,
            has_algorithm,
            defaults,
            name,
            phrase,
            passphrase,
            hd_path,
            algorithm,
            true,
        ) == account_plan(
            other_entries,
            has_algorithm,
            defaults,
            other_name,
            phrase,
            passphrase,
            hd_path,
            algorithm,
            true,
        ),
{
}

/// Whether `entry` is the local entry of an account made to `plan`: it has
/// the name, the algorithm, the public key and the path, and its secret
/// opens under the password as the secret key.
pub open spec fn is_account_entry(
    entry: EntryView,
    name: Seq<char>,
    algorithm: AlgorithmId,
    plan: AccountPlan,
    password: Seq<char>,
) -> bool {
    &&& entry.name == name
    &&& entry.algorithm == algorithm
    &&& entry.public_key == plan.pair.public.bytes
    &&& entry.material matches MaterialView::Local { secret, path }
    &&& path == Some(plan.path)
    &&& open_result(secret, password) == Some(plan.pair.secret)
}

/// Whether the secret of a local entry was sealed by this library in the
/// given number of rounds: the blob names the rounds, and its salt, nonce
/// and tag have the lengths that this library draws.
pub open spec fn sealed_under(entry: EntryView, rounds: u32) -> bool {
    &&& entry.material matches MaterialView::Local { secret, .. }
    &&& secret.kdf == (KdfParams { algorithm: KdfAlgorithm::Pbkdf2HmacSha512, rounds })
    &&& secret.salt.len() == SALT_LEN
    &&& secret.nonce.len() == NONCE_LEN
    &&& secret.tag.len() == TAG_LEN
}

/// What is told of an account made to `plan`: a local key of the name and
/// the algorithm, with the public key of the plan and its address.
pub open spec fn account_summary(name: Seq<char>, algorithm: AlgorithmId, plan: AccountPlan) -> SummaryView {
    SummaryView {
        name,
        key_type: KeyType::Local,
        algorithm,
        public_key: plan.pair.public.bytes,
        address: address_of(PublicKeyView { algorithm, bytes: plan.pair.public.bytes }),
    }
}

/// Whether the store took the account in: under the name stands the local
/// entry of the account, sealed in the given rounds, and nothing else has
/// changed.
pub open spec fn account_stored(
    before: Entries,
    after: Entries,
    name: Seq<char>,
    algorithm: AlgorithmId,
    plan: AccountPlan,
    password: Seq<char>,
    rounds: u32,
) -> bool {
    &&& after.contains_key(name)
    &&& is_account_entry(after[name], name, algorithm, plan, password)
    &&& sealed_under(after[name], rounds)
    &&& after == before.insert(name, after[name])
}

/// What making the account of a mnemonic comes to. Where the plan fails,
/// its failure is reported and the store stays as it was. A dry run tells
/// of the account and neither seals nor stores. Otherwise the secret is
/// sealed, which draws random bytes and may fail for it, and the entry is
/// stored.
pub open spec fn made_account(
    before: Entries,
    after: Entries,
    has_algorithm: bool,
    defaults: KeyringDefaults,
    name: Seq<char>,
    phrase: Seq<char>,
    passphrase: Seq<char>,
    hd_path: Option<Seq<char>>,
    algorithm: AlgorithmId,
    password: Seq<char>,
    dry_run: bool,
    r: Result<KeySummary, KeyringError>,
) -> bool {
    match account_plan(
        before,
        has_algorithm,
        defaults,
        name,
        phrase,
        passphrase,
        hd_path,
        algorithm,
        dry_run,
    ) {
        Err(e) => r matches Err(x) && x == e && after == before,
        Ok(plan) => if dry_run {
            r matches Ok(summary) && summary@ == account_summary(name, algorithm, plan) && after
                == before
        } else {
            match r {
                Ok(summary) => summary@ == account_summary(name, algorithm, plan)
                    && account_stored(
                    before,
                    after,
                    name,
                    algorithm,
                    plan,
                    password,
                    defaults.kdf_rounds,
                ),
                Err(e) => (e == KeyringError::EntropyUnavailable || e
                    == KeyringError::DecryptionFailed) && after == before,
            }
        },
    }
}

/// What making a new account comes to.
///
/// A mnemonic that the caller supplies must validate; from there on the
/// account is made of it, and no mnemonic is handed back. Without one, the
/// entropy size and all that is settled ahead of the keys are looked at
/// before anything is drawn; the mnemonic that is drawn validates, has
/// three words for every 32 bits, and is handed back with the account
/// that is made of it.
pub open spec fn made_new_account(
    before: Entries,
    after: Entries,
    has_algorithm: bool,
    defaults: KeyringDefaults,
    name: Seq<char>,
    mnemonic: Option<Seq<char>>,
    passphrase: Seq<char>,
    hd_path: Option<Seq<char>>,
    algorithm: AlgorithmId,
    password: Seq<char>,
    dry_run: bool,
    r: Result<NewAccount, KeyringError>,
) -> bool {
    match mnemonic {
        Some(words) => if !is_mnemonic(words) {
            r matches Err(e) && e == KeyringError::InvalidMnemonic && after == before
        } else {
            made_account(
                before,
                after,
                has_algorithm,
                defaults,
                name,
                words,
                passphrase,
                hd_path,
                algorithm,
                password,
                dry_run,
                summary_result(r),
            ) && (r matches Ok(account) ==> account.mnemonic is None)
        },
        None => if !accepted_entropy_bits(defaults.entropy_bits) {
            r matches Err(e) && e == KeyringError::InvalidMnemonic && after == before
        } else {
            match account_precheck(
                before,
                has_algorithm,
                defaults,
                name,
                hd_path,
                algorithm,
                dry_run,
            ) {
                Err(e) => r matches Err(x) && x == e && after == before,
                Ok(_) => match r {
                    Ok(account) => account.mnemonic matches Some(words) && is_mnemonic(words@)
                        && word_count(words@) == defaults.entropy_bits / 32 * 3 && made_account(
                        before,
                        after,
                        has_algorithm,
                        defaults,
                        name,
                        words@,
                        passphrase,
                        hd_path,
                        algorithm,
                        password,
                        dry_run,
                        summary_result(r),
                    ),
                    Err(e) => after == before && (e == KeyringError::EntropyUnavailable || e
                        == KeyringError::InvalidMnemonic || e == KeyringError::MalformedKey || e
                        == KeyringError::DecryptionFailed),
                },
            }
        },
    }
}

/// The summary in the outcome of making a new account.
pub open spec fn summary_result(r: Result<NewAccount, KeyringError>) -> Result<
    KeySummary,
    KeyringError,
> {
    match r {
        Ok(account) => Ok(account.summary),
        Err(e) => Err(e),
    }
}

/// A new account: what is told of it, and the mnemonic where one was
/// generated for it. The mnemonic is shown once and stored nowhere.
#[derive(Debug)]
pub struct NewAccount {
    pub summary: KeySummary,
    pub mnemonic: Option<String>,
}

/// What a keyring tells of an entry without opening anything.
#[derive(Debug)]
pub struct KeySummary {
    pub name: String,
    pub key_type: KeyType,
    pub algorithm: AlgorithmId,
    pub public_key: Vec<u8>,
    pub address: Vec<u8>,
}

/// The mathematical value of a [`KeySummary`].
pub struct SummaryView {
    pub name: Seq<char>,
    pub key_type: KeyType,
    pub algorithm: AlgorithmId,
    pub public_key: Seq<u8>,
    pub address: Seq<u8>,
}

impl View for KeySummary {
    type V = SummaryView;

    open spec fn view(&self) -> SummaryView {
        SummaryView {
            name: self.name@,
            key_type: self.key_type,
            algorithm: self.algorithm,
            public_key: self.public_key@,
            address: self.address@,
        }
    }
}

/// The summary of an entry.
pub open spec fn summary_of(entry: EntryView) -> SummaryView {
    SummaryView {
        name: entry.name,
        key_type: type_of(entry.material),
        algorithm: entry.algorithm,
        public_key: entry.public_key,
        address: address_of(PublicKeyView { algorithm: entry.algorithm, bytes: entry.public_key }),
    }
}

/// The lines that tell of an entry: its name, kind and algorithm, and its
/// public key and address in hexadecimal.
pub open spec fn summary_text(summary: SummaryView) -> Seq<char> {
    field_line("name"@, summary.name) + field_line("type"@, kind_name(summary.key_type))
        + field_line("algorithm"@, algorithm_name(summary.algorithm)) + field_line(
        "pubkey"@,
        hex_text(summary.public_key),
    ) + field_line("address"@, hex_text(summary.address))
}

impl KeySummary {
    /// The summary as lines of text.
    pub fn to_text(&self) -> (text: String)
        ensures
            text@ == summary_text(self@),
    {
        let mut out: Vec<char> = Vec::new();
        let name = chars_of(self.name.as_str());
        push_field(&mut out, "name", &name);
        let kind = chars_of(
            match self.key_type {
                KeyType::Local => "local",
                KeyType::Ledger => "ledger",
                KeyType::Offline => "offline",
                KeyType::Multisig => "multisig",
            },
        );
        push_field(&mut out, "type", &kind);
        let algorithm = chars_of(self.algorithm.name());
        push_field(&mut out, "algorithm", &algorithm);
        write_hex_field(&mut out, "pubkey", self.public_key.as_slice());
        write_hex_field(&mut out, "address", self.address.as_slice());
        assert(out@ =~= summary_text(self@));
        string_of(&out)
    }
}

/// Tells of an entry what may be shown: nothing is opened for it.
pub fn summarize(entry: &KeyEntry) -> (summary: KeySummary)
    ensures
        summary@ == summary_of(entry@),
{
    KeySummary {
        name: entry.name.clone(),
        key_type: entry.key_type(),
        algorithm: entry.algorithm,
        public_key: entry.public().bytes,
        address: entry.address(),
    }
}

/// The keyring. It holds the backend it stores in, the algorithms it
/// works with and the defaults of a derivation, from `init` to `teardown`.
pub struct Keyring<B: Backend> {
    backend: B,
    algorithms: AlgorithmRegistry,
    defaults: KeyringDefaults,
}

impl<B: Backend> Keyring<B> {
    /// The entries in the keyring's store.
    pub closed spec fn entries(&self) -> Entries {
        self.backend.entries()
    }

    /// Whether the keyring's store is in order.
    pub closed spec fn wf(&self) -> bool {
        self.backend.wf()
    }

    /// The algorithms that the keyring works with.
    pub closed spec fn registry(&self) -> AlgorithmRegistry {
        self.algorithms
    }

    /// The defaults of a derivation.
    pub closed spec fn derivation_defaults(&self) -> KeyringDefaults {
        self.defaults
    }

    /// A keyring on the given backend.
    pub fn init(backend: B, algorithms: AlgorithmRegistry, defaults: KeyringDefaults) -> (keyring:
        Keyring<B>)
        requires
            backend.wf(),
        ensures
            keyring.wf(),
            keyring.entries() == backend.entries(),
            keyring.registry() == algorithms,
            keyring.derivation_defaults() == defaults,
    {
        Keyring { backend, algorithms, defaults }
    }

    /// Ends the keyring and hands its backend back.
    pub fn teardown(self) -> (backend: B)
        requires
            self.wf(),
        ensures
            backend.wf(),
            backend.entries() == self.entries(),
    {
        self.backend
    }

    /// The parameters under which this keyring seals.
    fn kdf(&self) -> (kdf: KdfParams)
        ensures
            kdf == (KdfParams {
                algorithm: KdfAlgorithm::Pbkdf2HmacSha512,
                rounds: self.derivation_defaults().kdf_rounds,
            }),
    {
        KdfParams { algorithm: KdfAlgorithm::Pbkdf2HmacSha512, rounds: self.defaults.kdf_rounds }
    }

    /// The path of a new account.
    pub fn resolve_path(&self, hd_path: Option<&str>) -> (r: Result<HDPath, KeyringError>)
        ensures
            match r {
                Ok(path) => resolved_path(text_view(hd_path), self.derivation_defaults()) == Ok::<
                    Seq<u32>,
                    KeyringError,
                >(path@),
                Err(e) => resolved_path(text_view(hd_path), self.derivation_defaults()) == Err::<
                    Seq<u32>,
                    KeyringError,
                >(e),
            },
    {
        match hd_path {
            Some(text) => HDPath::parse(text),
            None => HDPath::build(self.defaults.coin_type, self.defaults.account, self.defaults.index),
        }
    }

    /// Whether an entry is stored under `name`, so that making a key of
    /// that name would need leave to replace it.
    pub fn check_conflict(&self, name: &str) -> (taken: bool)
        requires
            self.wf(),
        ensures
            taken == self.entries().contains_key(name@),
    {
        match self.backend.get(name) {
            Ok(_) => true,
            Err(_) => false,
        }
    }

    /// Stores an entry in place of the one of the same name, after the
    /// caller has confirmed that the old one may go.
    pub fn confirm_and_replace(&mut self, entry: KeyEntry) -> (r: Result<(), KeyringError>)
        requires
            old(self).wf(),
        ensures
            final(self).wf(),
            r is Ok,
            final(self).entries() == old(self).entries().insert(entry@.name, entry@),
            final(self).registry() == old(self).registry(),
            final(self).derivation_defaults() == old(self).derivation_defaults(),
    {
        self.backend.put(entry, true)
    }

    /// In a keyring whose store is in order every entry stands under its
    /// own name.
    pub proof fn lemma_keyed_by_name(&self)
        requires
            self.wf(),
        ensures
            keyed_by_name(self.entries()),
    {
        self.backend.lemma_keyed_by_name();
    }

    /// The algorithms that the keyring works with.
    pub fn algorithms(&self) -> (registry: AlgorithmRegistry)
        ensures
            registry == self.registry(),
    {
        self.algorithms
    }

    /// What the keyring uses where the caller names nothing else.
    pub fn defaults(&self) -> (defaults: KeyringDefaults)
        ensures
            defaults == self.derivation_defaults(),
    {
        self.defaults
    }

    /// The backend that the keyring stores in.
    pub fn backend(&self) -> (backend: &B)
        ensures
            backend.wf() == self.wf(),
            backend.entries() == self.entries(),
    {
        &self.backend
    }

    /// Looks at what is settled of a new account ahead of its keys.
    fn precheck(&self, name: &str, hd_path: Option<&str>, algorithm: AlgorithmId, dry_run: bool) -> (r:
        Result<HDPath, KeyringError>)
        requires
            self.wf(),
        ensures
            match r {
                Ok(path) => account_precheck(
                    self.entries(),
                    self.registry().has(algorithm),
                    self.derivation_defaults(),
                    name@,
                    text_view(hd_path),
                    algorithm,
                    dry_run,
                ) == Ok::<Seq<u32>, KeyringError>(path@),
                Err(e) => account_precheck(
                    self.entries(),
                    self.registry().has(algorithm),
                    self.derivation_defaults(),
                    name@,
                    text_view(hd_path),
                    algorithm,
                    dry_run,
                ) == Err::<Seq<u32>, KeyringError>(e),
            },
    {
        let path = match self.resolve_path(hd_path) {
            Ok(path) => path,
            Err(e) => {
                return Err(e);
            },
        };
        if !self.algorithms.supports(algorithm) {
            return Err(KeyringError::UnsupportedAlgorithm);
        }
        let hardened_only = match algorithm {
            AlgorithmId::Ed25519 => every_level_hardened(path.levels()),
            AlgorithmId::Secp256k1 => true,
        };
        if !hardened_only {
            return Err(KeyringError::IncompatibleOptions);
        }
        if !dry_run && self.check_conflict(name) {
            return Err(KeyringError::AlreadyExists);
        }
        Ok(path)
    }

    /// Makes the account of a mnemonic: derives its key pair and, unless
    /// this is a dry run, seals the secret key under the password and
    /// stores the entry under a name that must be free.
    ///
    /// Everything is looked at before anything is stored, and a failure
    /// leaves the store as it was. A dry run neither seals nor stores, so
    /// that it draws nothing. Sealing draws random bytes, so it may fail
    /// where all else went well.
    pub fn create_account(
        &mut self,
        name: &str,
        mnemonic: &Mnemonic,
        passphrase: &str,
        hd_path: Option<&str>,
        algorithm: AlgorithmId,
        password: &str,
        dry_run: bool,
    ) -> (r: Result<KeySummary, KeyringError>)
        requires
            old(self).wf(),
        ensures
            final(self).wf(),
            final(self).registry() == old(self).registry(),
            final(self).derivation_defaults() == old(self).derivation_defaults(),
            made_account(
                old(self).entries(),
                final(self).entries(),
                old(self).registry().has(algorithm),
                old(self).derivation_defaults(),
                name@,
                mnemonic@,
                passphrase@,
                text_view(hd_path),
                algorithm,
                password@,
                dry_run,
                r,
            ),
    {
        let path = match self.precheck(name, hd_path, algorithm, dry_run) {
            Ok(path) => path,
            Err(e) => {
                return Err(e);
            },
        };
        let seed = mnemonic.to_seed(passphrase);
        let pair = match derive_key_pair(algorithm, seed.as_slice(), &path) {
            Ok(pair) => pair,
            Err(e) => {
                return Err(e);
            },
        };
        let summary = KeySummary {
            name: name.to_owned(),
            key_type: KeyType::Local,
            algorithm,
            public_key: copy_bytes(pair.public.bytes.as_slice()),
            address: pair.public.address(),
        };
        if dry_run {
            return Ok(summary);
        }
        let secret = match seal_under(pair.secret.as_slice(), password, self.kdf()) {
            Ok(blob) => blob,
            Err(e) => {
                return Err(e);
            },
        };
        let entry = KeyEntry {
            name: name.to_owned(),
            algorithm,
            public_key: pair.public.bytes,
            material: KeyMaterial::Local { secret, path: Some(path) },
        };
        let _ = self.backend.put(entry, false);
        Ok(summary)
    }

    /// Makes a new account.
    ///
    /// Without a mnemonic one is generated at the default entropy size and
    /// handed back with the account, to be shown once. A mnemonic that the
    /// caller supplies is validated first and is not handed back. From
    /// there on the account is made as [`Keyring::create_account`] makes
    /// it, and a failure leaves the store as it was.
    pub fn new_account(
        &mut self,
        name: &str,
        mnemonic: Option<&str>,
        passphrase: &str,
        hd_path: Option<&str>,
        algorithm: AlgorithmId,
        password: &str,
        dry_run: bool,
    ) -> (r: Result<NewAccount, KeyringError>)
        requires
            old(self).wf(),
        ensures
            final(self).wf(),
            final(self).registry() == old(self).registry(),
            final(self).derivation_defaults() == old(self).derivation_defaults(),
            made_new_account(
                old(self).entries(),
                final(self).entries(),
                old(self).registry().has(algorithm),
                old(self).derivation_defaults(),
                name@,
                text_view(mnemonic),
                passphrase@,
                text_view(hd_path),
                algorithm,
                password@,
                dry_run,
                r,
            ),
    {
        match mnemonic {
            Some(words) => {
                let parsed = match Mnemonic::parse(words) {
                    Ok(m) => m,
                    Err(e) => {
                        return Err(e);
                    },
                };
                match self.create_account(
                    name,
                    &parsed,
                    passphrase,
                    hd_path,
                    algorithm,
                    password,
                    dry_run,
                ) {
                    Ok(summary) => Ok(NewAccount { summary, mnemonic: None }),
                    Err(e) => Err(e),
                }
            },
            None => {
                let bits = self.defaults.entropy_bits;
                if !(bits == 128 || bits == 160 || bits == 192 || bits == 224 || bits == 256) {
                    return Err(KeyringError::InvalidMnemonic);
                }
                match self.precheck(name, hd_path, algorithm, dry_run) {
                    Ok(_) => {},
                    Err(e) => {
                        return Err(e);
                    },
                }
                let generated = match Mnemonic::generate(bits) {
                    Ok(m) => m,
                    Err(e) => {
                        return Err(e);
                    },
                };
                match self.create_account(
                    name,
                    &generated,
                    passphrase,
                    hd_path,
                    algorithm,
                    password,
                    dry_run,
                ) {
                    Ok(summary) => Ok(
                        NewAccount { summary, mnemonic: Some(generated.phrase().to_owned()) },
                    ),
                    Err(e) => Err(e),
                }
            },
        }
    }

    /// Stores a public key alone under a name that must be free.
    ///
    /// The key must have the shape of a key of its algorithm.
    pub fn save_offline_key(&mut self, name: &str, public_key: PublicKey) -> (r: Result<
        KeyEntry,
        KeyringError,
    >)
        requires
            old(self).wf(),
        ensures
            final(self).wf(),
            final(self).registry() == old(self).registry(),
            final(self).derivation_defaults() == old(self).derivation_defaults(),
            stored_entry(
                offline_plan(old(self).entries(), name@, public_key@),
                old(self).entries(),
                final(self).entries(),
                r,
            ),
    {
        if !public_key.is_well_formed() {
            return Err(KeyringError::MalformedKey);
        }
        if self.check_conflict(name) {
            return Err(KeyringError::AlreadyExists);
        }
        let entry = KeyEntry {
            name: name.to_owned(),
            algorithm: public_key.algorithm,
            public_key: public_key.bytes,
            material: KeyMaterial::Offline,
        };
        let stored = entry.clone();
        let _ = self.backend.put(stored, false);
        Ok(entry)
    }

    /// Records where a key lives on a hardware device, under a name that
    /// must be free. No private key is touched, and the public key stays
    /// empty until the device is asked for it.
    pub fn save_ledger_key(
        &mut self,
        name: &str,
        algorithm: AlgorithmId,
        address_prefix: &str,
        coin_type: u32,
        account: u32,
        index: u32,
    ) -> (r: Result<KeyEntry, KeyringError>)
        requires
            old(self).wf(),
        ensures
            final(self).wf(),
            final(self).registry() == old(self).registry(),
            final(self).derivation_defaults() == old(self).derivation_defaults(),
            stored_entry(
                ledger_plan(
                    old(self).entries(),
                    old(self).registry().has(algorithm),
                    name@,
                    algorithm,
                    address_prefix@,
                    coin_type,
                    account,
                    index,
                ),
                old(self).entries(),
                final(self).entries(),
                r,
            ),
    {
        if !self.algorithms.supports(algorithm) {
            return Err(KeyringError::UnsupportedAlgorithm);
        }
        let device_path = match HDPath::build(coin_type, account, index) {
            Ok(path) => path,
            Err(e) => {
                return Err(e);
            },
        };
        if self.check_conflict(name) {
            return Err(KeyringError::AlreadyExists);
        }
        let entry = KeyEntry {
            name: name.to_owned(),
            algorithm,
            public_key: Vec::new(),
            material: KeyMaterial::Ledger { device_path, address_prefix: address_prefix.to_owned() },
        };
        let stored = entry.clone();
        let _ = self.backend.put(stored, false);
        Ok(entry)
    }

    /// Looks up the public key of each member name.
    fn resolve_members(&self, member_names: &Vec<String>) -> (r: Option<Vec<PublicKey>>)
        requires
            self.wf(),
        ensures
            match r {
                Some(members) => resolved_members(self.entries(), texts_view(member_names@))
                    == Some(keys_view(members@)),
                None => resolved_members(self.entries(), texts_view(member_names@)) is None,
            },
    {
        let ghost names = texts_view(member_names@);
        let mut members: Vec<PublicKey> = Vec::new();
        let mut i: usize = 0;
        assert(names.take(0) =~= Seq::<Seq<char>>::empty());
        assert(keys_view(members@) =~= Seq::<PublicKeyView>::empty());
        while i < member_names.len()
            invariant
                i <= member_names@.len(),
                self.wf(),
                names == texts_view(member_names@),
                resolved_members(self.entries(), names.take(i as int)) == Some(
                    keys_view(members@),
                ),
            decreases member_names@.len() - i,
        {
            proof {
                assert(names.take(i + 1).drop_last() =~= names.take(i as int));
                assert(names.take(i + 1).last() == member_names@[i as int]@);
            }
            let ghost before = keys_view(members@);
            match self.backend.get(member_names[i].as_str()) {
                Err(_) => {
                    proof {
                        lemma_missing_member_stays_missing(self.entries(), names, i + 1);
                    }
                    return None;
                },
                Ok(entry) => {
                    members.push(entry.public());
                    assert(keys_view(members@) =~= before.push(
                        member_key(self.entries()[member_names@[i as int]@]),
                    ));
                },
            }
            i = i + 1;
        }
        assert(names.take(i as int) =~= names);
        Some(members)
    }

    /// Composes a threshold key from the public keys of the named members
    /// and stores it under a name that must be free.
    ///
    /// The threshold is held against the number of names first; a name
    /// without an entry comes next, and what composing refuses after that.
    pub fn save_multisig(
        &mut self,
        name: &str,
        threshold: u32,
        member_names: &Vec<String>,
        sort: bool,
    ) -> (r: Result<KeyEntry, KeyringError>)
        requires
            old(self).wf(),
        ensures
            final(self).wf(),
            final(self).registry() == old(self).registry(),
            final(self).derivation_defaults() == old(self).derivation_defaults(),
            stored_entry(
                multisig_plan(
                    old(self).entries(),
                    name@,
                    threshold,
                    texts_view(member_names@),
                    sort,
                ),
                old(self).entries(),
                final(self).entries(),
                r,
            ),
    {
        if threshold == 0 || threshold as usize > member_names.len() {
            return Err(KeyringError::InvalidThreshold);
        }
        let members = match self.resolve_members(member_names) {
            Some(members) => members,
            None => {
                return Err(KeyringError::NotFound);
            },
        };
        let key = match compose(members, threshold, sort) {
            Ok(key) => key,
            Err(e) => {
                return Err(e);
            },
        };
        if self.check_conflict(name) {
            return Err(KeyringError::AlreadyExists);
        }
        let algorithm = key.members()[0].algorithm;
        let public_key = key.to_bytes();
        let entry = KeyEntry {
            name: name.to_owned(),
            algorithm,
            public_key,
            material: KeyMaterial::Multisig { key },
        };
        let stored = entry.clone();
        let _ = self.backend.put(stored, false);
        Ok(entry)
    }

    /// Writes the secret of a local entry as armored text.
    ///
    /// The secret is opened with the password and sealed afresh under it,
    /// so that the text on its way holds nothing of the stored blob but
    /// the plaintext.
    pub fn export(&self, name: &str, password: &str) -> (r: Result<String, KeyringError>)
        requires
            self.wf(),
        ensures
            exported(
                self.entries(),
                name@,
                password@,
                self.derivation_defaults().kdf_rounds,
                r,
            ),
    {
        let entry = match self.backend.get(name) {
            Ok(entry) => entry,
            Err(e) => {
                return Err(e);
            },
        };
        let plaintext = match entry.encrypted_secret() {
            None => {
                return Err(KeyringError::MalformedKey);
            },
            Some(blob) => match open(blob, password) {
                Ok(plaintext) => plaintext,
                Err(e) => {
                    return Err(e);
                },
            },
        };
        let blob = match seal_under(plaintext.as_slice(), password, self.kdf()) {
            Ok(blob) => blob,
            Err(e) => {
                return Err(e);
            },
        };
        let key = ArmoredKey { algorithm: entry.algorithm, blob };
        proof {
            lemma_key_of_armor(key@);
        }
        Ok(armor(&key))
    }

    /// Takes a key from armored text and stores it under a name that must
    /// be free.
    ///
    /// The text is read, the algorithm looked up, the secret opened with
    /// the password and its public key derived before anything is stored.
    pub fn import(&mut self, name: &str, armored: &str, password: &str) -> (r: Result<
        KeyEntry,
        KeyringError,
    >)
        requires
            old(self).wf(),
        ensures
            final(self).wf(),
            final(self).registry() == old(self).registry(),
            final(self).derivation_defaults() == old(self).derivation_defaults(),
            stored_entry(
                import_plan(old(self).entries(), old(self).registry(), name@, armored@, password@),
                old(self).entries(),
                final(self).entries(),
                r,
            ),
    {
        let key = match unarmor(armored) {
            Ok(key) => key,
            Err(e) => {
                return Err(e);
            },
        };
        if !self.algorithms.supports(key.algorithm) {
            return Err(KeyringError::UnsupportedAlgorithm);
        }
        let secret = match open(&key.blob, password) {
            Ok(secret) => secret,
            Err(e) => {
                return Err(e);
            },
        };
        let public = match public_key_of(key.algorithm, secret.as_slice()) {
            Ok(public) => public,
            Err(e) => {
                return Err(e);
            },
        };
        if self.check_conflict(name) {
            return Err(KeyringError::AlreadyExists);
        }
        let entry = KeyEntry {
            name: name.to_owned(),
            algorithm: key.algorithm,
            public_key: public.bytes,
            material: KeyMaterial::Local { secret: key.blob, path: None },
        };
        let stored = entry.clone();
        let _ = self.backend.put(stored, false);
        Ok(entry)
    }

    /// Removes the entry stored under `name`.
    pub fn delete(&mut self, name: &str) -> (r: Result<(), KeyringError>)
        requires
            old(self).wf(),
        ensures
            final(self).wf(),
            final(self).registry() == old(self).registry(),
            final(self).derivation_defaults() == old(self).derivation_defaults(),
            changed_as(
                delete_result(old(self).entries(), name@),
                old(self).entries(),
                final(self).entries(),
                r,
            ),
    {
        self.backend.delete(name)
    }

    /// Stores the entry of `old_name` under `new_name` in its place.
    pub fn rename(&mut self, old_name: &str, new_name: &str) -> (r: Result<(), KeyringError>)
        requires
            old(self).wf(),
        ensures
            final(self).wf(),
            final(self).registry() == old(self).registry(),
            final(self).derivation_defaults() == old(self).derivation_defaults(),
            changed_as(
                rename_result(old(self).entries(), old_name@, new_name@),
                old(self).entries(),
                final(self).entries(),
                r,
            ),
    {
        self.backend.rename(old_name, new_name)
    }

    /// What may be shown of the entry stored under `name`.
    pub fn show(&self, name: &str) -> (r: Result<KeySummary, KeyringError>)
        requires
            self.wf(),
        ensures
            shown(self.entries(), name@, r),
    {
        match self.backend.get(name) {
            Ok(entry) => Ok(summarize(&entry)),
            Err(e) => Err(e),
        }
    }

    /// What may be shown of every entry, in ascending order of name.
    pub fn list(&self) -> (r: Vec<KeySummary>)
        requires
            self.wf(),
        ensures
            listed(self.entries(), r@),
    {
        let entries = self.backend.list();
        let mut out: Vec<KeySummary> = Vec::new();
        let mut i: usize = 0;
        while i < entries.len()
            invariant
                i <= entries@.len(),
                out@.len() == i,
                forall|j: int| 0 <= j < i ==> (#[trigger] out@[j])@ == summary_of(entries@[j]@),
            decreases entries@.len() - i,
        {
            out.push(summarize(&entries[i]));
            i = i + 1;
        }
        proof {
            let listing = entries_view(entries@);
            assert(is_listing(listing, self.entries()));
            assert forall|j: int| 0 <= j < listing.len() implies (#[trigger] out@[j])@
                == summary_of(listing[j]) by {}
        }
        out
    }
}

/// What storing an offline key comes to.
pub open spec fn offline_plan(entries: Entries, name: Seq<char>, key: PublicKeyView) -> Result<
    EntryView,
    KeyringError,
> {
    if !well_formed_key(key) {
        Err(KeyringError::MalformedKey)
    } else if entries.contains_key(name) {
        Err(KeyringError::AlreadyExists)
    } else {
        Ok(
            EntryView {
                name,
                algorithm: key.algorithm,
                public_key: key.bytes,
                material: MaterialView::Offline,
            },
        )
    }
}

/// What recording a key on a hardware device comes to.
pub open spec fn ledger_plan(
    entries: Entries,
    has_algorithm: bool,
    name: Seq<char>,
    algorithm: AlgorithmId,
    address_prefix: Seq<char>,
    coin_type: u32,
    account: u32,
    index: u32,
) -> Result<EntryView, KeyringError> {
    if !has_algorithm {
        Err(KeyringError::UnsupportedAlgorithm)
    } else if coin_type >= HARDENED || account >= HARDENED || index >= HARDENED {
        Err(KeyringError::IncompatibleOptions)
    } else if entries.contains_key(name) {
        Err(KeyringError::AlreadyExists)
    } else {
        Ok(
            EntryView {
                name,
                algorithm,
                public_key: Seq::empty(),
                material: MaterialView::Ledger {
                    device_path: account_levels(coin_type, account, index),
                    address_prefix,
                },
            },
        )
    }
}

/// The public key of an entry with its algorithm.
pub open spec fn member_key(entry: EntryView) -> PublicKeyView {
    PublicKeyView { algorithm: entry.algorithm, bytes: entry.public_key }
}

/// The public keys of the named entries, in the order of the names, or
/// nothing where a name has no entry.
pub open spec fn resolved_members(entries: Entries, names: Seq<Seq<char>>) -> Option<
    Seq<PublicKeyView>,
>
    decreases names.len(),
{
    if names.len() == 0 {
        Some(Seq::empty())
    } else {
        match resolved_members(entries, names.drop_last()) {
            None => None,
            Some(front) => if entries.contains_key(names.last()) {
                Some(front.push(member_key(entries[names.last()])))
            } else {
                None
            },
        }
    }
}

proof fn lemma_missing_member_stays_missing(entries: Entries, names: Seq<Seq<char>>, n: int)
    requires
        0 <= n <= names.len(),
        resolved_members(entries, names.take(n)) is None,
    ensures
        resolved_members(entries, names) is None,
    decreases names.len() - n,
{
    if n < names.len() {
        assert(names.take(n + 1).drop_last() =~= names.take(n));
        lemma_missing_member_stays_missing(entries, names, n + 1);
    } else {
        assert(names.take(n) =~= names);
    }
}

/// The entry of a threshold key: it goes by the algorithm of its first
/// member and by the bytes that stand for the whole key.
pub open spec fn multisig_entry(name: Seq<char>, key: MultisigView) -> EntryView {
    EntryView {
        name,
        algorithm: key.members[0].algorithm,
        public_key: multisig_bytes(key),
        material: MaterialView::Multisig { key },
    }
}

/// What storing a threshold key comes to.
pub open spec fn multisig_plan(
    entries: Entries,
    name: Seq<char>,
    threshold: u32,
    names: Seq<Seq<char>>,
    sort: bool,
) -> Result<EntryView, KeyringError> {
    if threshold == 0 || threshold > names.len() {
        Err(KeyringError::InvalidThreshold)
    } else {
        match resolved_members(entries, names) {
            None => Err(KeyringError::NotFound),
            Some(members) => match compose_result(members, threshold, sort) {
                Err(e) => Err(e),
                Ok(key) => if entries.contains_key(name) {
                    Err(KeyringError::AlreadyExists)
                } else {
                    Ok(multisig_entry(name, key))
                },
            },
        }
    }
}

/// A secret on its way out of a keyring: the algorithm and the plaintext.
pub struct ExportSource {
    pub algorithm: AlgorithmId,
    pub secret: Seq<u8>,
}

/// What an export starts from: the secret of a local entry, opened with
/// the password.
pub open spec fn export_source(entries: Entries, name: Seq<char>, password: Seq<char>) -> Result<
    ExportSource,
    KeyringError,
> {
    match get_result(entries, name) {
        Err(e) => Err(e),
        Ok(entry) => match entry.material {
            MaterialView::Local { secret, .. } => match open_result(secret, password) {
                Some(plain) => Ok(ExportSource { algorithm: entry.algorithm, secret: plain }),
                None => Err(KeyringError::DecryptionFailed),
            },
            _ => Err(KeyringError::MalformedKey),
        },
    }
}

/// Whether `text` is an armored text that carries the secret: it names
/// the algorithm, and its blob opens under the password as the secret.
pub open spec fn carries(text: Seq<char>, source: ExportSource, password: Seq<char>) -> bool {
    match key_of_armor(text) {
        Some(key) => key.algorithm == source.algorithm && open_result(key.blob, password) == Some(
            source.secret,
        ),
        None => false,
    }
}

/// Whether the blob of an armored text names the given number of rounds.
pub open spec fn sealed_in(text: Seq<char>, rounds: u32) -> bool {
    match key_of_armor(text) {
        Some(key) => key.blob.kdf == (KdfParams {
            algorithm: KdfAlgorithm::Pbkdf2HmacSha512,
            rounds,
        }),
        None => false,
    }
}

/// Whether `r` is what exporting comes to: the failure of the source where
/// there is one, and otherwise a text that carries the secret, sealed in
/// the given number of rounds, unless the fresh seal fails for want of
/// random bytes.
pub open spec fn exported(
    entries: Entries,
    name: Seq<char>,
    password: Seq<char>,
    rounds: u32,
    r: Result<String, KeyringError>,
) -> bool {
    match export_source(entries, name, password) {
        Err(e) => r matches Err(x) && x == e,
        Ok(source) => match r {
            Ok(text) => carries(text@, source, password) && sealed_in(text@, rounds),
            Err(e) => e == KeyringError::EntropyUnavailable || e == KeyringError::DecryptionFailed,
        },
    }
}

/// Whether `r` is what showing a name comes to: the summary of the entry
/// that is stored, or that none is found.
pub open spec fn shown(entries: Entries, name: Seq<char>, r: Result<KeySummary, KeyringError>) -> bool {
    match get_result(entries, name) {
        Ok(entry) => r matches Ok(summary) && summary@ == summary_of(entry),
        Err(e) => r matches Err(x) && x == e,
    }
}

/// Whether `summaries` tell of every entry once, in ascending order of
/// name.
pub open spec fn listed(entries: Entries, summaries: Seq<KeySummary>) -> bool {
    exists|listing: Seq<EntryView>| #[trigger]
        is_listing(listing, entries) && listing.len() == summaries.len() && forall|i: int|
            0 <= i < listing.len() ==> (#[trigger] summaries[i])@ == summary_of(listing[i])
}

/// Whether the store went from `before` to `after` as `change` says: to
/// the entries of the change where it succeeds, and nowhere where it
/// fails.
pub open spec fn changed_as(
    change: Result<Entries, KeyringError>,
    before: Entries,
    after: Entries,
    r: Result<(), KeyringError>,
) -> bool {
    match change {
        Ok(entries) => r is Ok && after == entries,
        Err(e) => r == Err::<(), KeyringError>(e) && after == before,
    }
}

/// Whether the store took in the entry of `plan` under its name and `r`
/// hands it back, or the plan failed and the store stayed as it was.
pub open spec fn stored_entry(
    plan: Result<EntryView, KeyringError>,
    before: Entries,
    after: Entries,
    r: Result<KeyEntry, KeyringError>,
) -> bool {
    match plan {
        Ok(entry) => r matches Ok(got) && got@ == entry && after == before.insert(
            entry.name,
            entry,
        ),
        Err(e) => r matches Err(x) && x == e && after == before,
    }
}

/// What importing an armored text comes to.
pub open spec fn import_plan(
    entries: Entries,
    registry: AlgorithmRegistry,
    name: Seq<char>,
    text: Seq<char>,
    password: Seq<char>,
) -> Result<EntryView, KeyringError> {
    match key_of_armor(text) {
        None => Err(KeyringError::MalformedKey),
        Some(key) => if !registry.has(key.algorithm) {
            Err(KeyringError::UnsupportedAlgorithm)
        } else {
            match open_result(key.blob, password) {
                None => Err(KeyringError::DecryptionFailed),
                Some(secret) => match public_of(key.algorithm, secret) {
                    Err(e) => Err(e),
                    Ok(public) => if entries.contains_key(name) {
                        Err(KeyringError::AlreadyExists)
                    } else {
                        Ok(
                            EntryView {
                                name,
                                algorithm: key.algorithm,
                                public_key: public.bytes,
                                material: MaterialView::Local { secret: key.blob, path: None },
                            },
                        )
                    },
                },
            }
        },
    }
}

/// A key that was exported and is imported under a free name with the
/// same password has the public key that belongs to the exported secret.
/// Where the entry it came from held that public key, the two agree.
pub proof fn lemma_export_then_import(
    entries: Entries,
    registry: AlgorithmRegistry,
    name: Seq<char>,
    new_name: Seq<char>,
    password: Seq<char>,
    text: Seq<char>,
)
    requires
        export_source(entries, name, password) is Ok,
        carries(text, export_source(entries, name, password)->Ok_0, password),
        registry.has(entries[name].algorithm),
        !entries.contains_key(new_name),
        public_of(entries[name].algorithm, export_source(entries, name, password)->Ok_0.secret)
            == Ok::<PublicKeyView, KeyringError>(member_key(entries[name])),
    ensures
        import_plan(entries, registry, new_name, text, password) is Ok,
        import_plan(entries, registry, new_name, text, password)->Ok_0.public_key
            == entries[name].public_key,
        import_plan(entries, registry, new_name, text, password)->Ok_0.algorithm
            == entries[name].algorithm,
{
}

/// The local entry of an account holds the public key that belongs to its
/// secret, so that exporting and importing it keeps the public key.
pub proof fn lemma_account_entry_exports(
    entry: EntryView,
    name: Seq<char>,
    algorithm: AlgorithmId,
    plan: AccountPlan,
    password: Seq<char>,
    seed: Seq<u8>,
)
    requires
        is_account_entry(entry, name, algorithm, plan, password),
        key_pair_of(algorithm, seed, plan.path) == Ok::<KeyPairView, KeyringError>(plan.pair),
    ensures
        public_of(algorithm, plan.pair.secret) == Ok::<PublicKeyView, KeyringError>(
            member_key(entry),
        ),
{
}

/// The characters of a text that may be missing.
pub open spec fn text_view(text: Option<&str>) -> Option<Seq<char>> {
    match text {
        Some(t) => Some(t@),
        None => None,
    }
}

} // verus!
