//! The commands of the application: what each of them decides, and what
//! it does on a keyring with the answers that come with the call. Asking
//! the user and reading and writing the store are left to the program
//! around the library.

use vstd::prelude::*;
use crate::algorithm::{algorithm_named, AlgorithmId, AlgorithmRegistry, PublicKey, PublicKeyView};
use crate::backend::{delete_result, rename_result, Backend, Entries, MemoryBackend};
use crate::config::AmonConfig;
use crate::entry::{EntryView, KeyEntry};
use crate::error::KeyringError;
use crate::hd_path::{account_levels, path_of_text, path_text, HDPath, HARDENED};
use crate::keyring::{
    changed_as, exported, import_plan, ledger_plan, listed, made_new_account, multisig_plan,
    offline_plan, shown, summarize, summary_of, KeySummary, Keyring, KeyringDefaults,
    NewAccount,
};
use crate::mnemonic::{accepted_entropy_bits, is_mnemonic, validate, word_count, Mnemonic};
use crate::text::{push_text, split_fields, split_text, string_of, texts_view};

verus! {

/// Where the configuration file is looked for below the home directory.
pub const DEFAULT_CONFIG_PATH: &'static str = ".amon/config.toml";

/// The `start` command.
#[derive(Debug)]
pub struct StartCmd {}

/// The `keys export` command.
#[derive(Debug)]
pub struct ExportCmd {}

/// The `keys show` command.
#[derive(Debug)]
pub struct ShowCmd {}

/// The `keys delete` command.
#[derive(Debug)]
pub struct DeleteCmd {}

/// The `keys import` command.
#[derive(Debug)]
pub struct ImportCmd {}

/// The `keys list` command.
#[derive(Debug)]
pub struct ListCmd {}

/// The `keys migrate` command.
#[derive(Debug)]
pub struct MigrateCmd {}

/// The `keys mnemonic` command.
#[derive(Debug)]
pub struct MnemonicCmd {}

/// The `keys parse` command.
#[derive(Debug)]
pub struct ParseCmd {}

/// The `keys rename` command.
#[derive(Debug)]
pub struct RenameCmd {}

/// The `keys add` command: makes or recovers a key, or records a public
/// key, a key on a hardware device or a threshold key.
#[derive(Debug)]
pub struct AddCmd {
    /// Account name.
    pub name: String,
    /// Account number of the derivation.
    pub account: u32,
    /// Name of the signing algorithm.
    pub algo: String,
    /// Coin type of the derivation.
    pub coin_type: u32,
    /// Go through the motions without storing the key.
    pub dry_run: bool,
    /// A derivation path written out, in place of the standard layout.
    pub hd_path: Option<String>,
    /// Address index of the derivation.
    pub index: u32,
    /// Ask for mnemonic and passphrase.
    pub interactive: bool,
    /// Record a key that lives on a hardware device.
    pub ledger: bool,
    /// Names of the members of a threshold key, with commas between them.
    pub multisig: Option<String>,
    /// How many of the members must sign.
    pub multisig_threshold: i32,
    /// Do not show the mnemonic.
    pub no_backup: bool,
    /// Keep the members in the order in which they were named.
    pub nosort: bool,
    /// A public key to record without a secret.
    pub pubkey: Option<String>,
    /// Recover a key from a mnemonic that the user supplies.
    pub recover: bool,
}

/// The `keys` commands.
#[derive(Debug)]
pub enum KeysCmd {
    Add(AddCmd),
    Delete(DeleteCmd),
    Export(ExportCmd),
    Import(ImportCmd),
    List(ListCmd),
    Migrate(MigrateCmd),
    Mnemonic(MnemonicCmd),
    Parse(ParseCmd),
    Rename(RenameCmd),
    Show(ShowCmd),
}

/// The commands of the application.
#[derive(Debug)]
pub enum AmonCmd {
    Start(StartCmd),
    Keys(KeysCmd),
}

/// The command line as a whole.
#[derive(Debug)]
pub struct EntryPoint {
    pub cmd: AmonCmd,
    /// Log more.
    pub verbose: bool,
    /// The configuration file to use.
    pub config: Option<String>,
}

/// How a new key is written out for the user.
#[derive(Clone, Copy, Debug, PartialEq, Eq, Structural)]
pub enum OutputFormat {
    Text,
    Json,
}

/// What became of the search for a configuration file.
#[derive(Clone, Copy, Debug, PartialEq, Eq, Structural)]
pub enum ConfigNotice {
    /// The default file is there and is used.
    UsingDefault,
    /// No file is there at the default place.
    MissingFile,
    /// No default place could be found.
    NoDefaultPlace,
}

/// The configuration file that is used, if any, and what to tell the user
/// of it.
#[derive(Debug)]
pub struct ConfigChoice {
    pub path: Option<String>,
    pub notice: ConfigNotice,
}

/// Where the mnemonic of a new account comes from.
#[derive(Clone, Copy, Debug, PartialEq, Eq, Structural)]
pub enum MnemonicSource {
    /// A new one is generated.
    Generate,
    /// The user must supply one.
    Ask,
    /// The user may supply one; where the answer is empty one is generated.
    AskOrGenerate,
}

/// What `keys add` is to do.
#[derive(Debug)]
pub enum AddPlan {
    /// Compose a threshold key from the named members.
    Multisig { member_names: Vec<String>, threshold: u32, sort: bool },
    /// Record a public key without a secret.
    OfflineKey { public_key: String },
    /// Record a key that lives on a hardware device.
    LedgerKey { coin_type: u32, account: u32, index: u32 },
    /// Make or recover an account.
    Account {
        algorithm: AlgorithmId,
        path: HDPath,
        mnemonic: MnemonicSource,
        ask_passphrase: bool,
        show_mnemonic: bool,
        dry_run: bool,
    },
}

/// The mathematical value of an [`AddPlan`].
pub enum AddPlanView {
    Multisig { member_names: Seq<Seq<char>>, threshold: u32, sort: bool },
    OfflineKey { public_key: Seq<char> },
    LedgerKey { coin_type: u32, account: u32, index: u32 },
    Account {
        algorithm: AlgorithmId,
        path: Seq<u32>,
        mnemonic: MnemonicSource,
        ask_passphrase: bool,
        show_mnemonic: bool,
        dry_run: bool,
    },
}

impl View for AddPlan {
    type V = AddPlanView;

    open spec fn view(&self) -> AddPlanView {
        match *self {
            AddPlan::Multisig { member_names, threshold, sort } => AddPlanView::Multisig {
                member_names: texts_view(member_names@),
                threshold,
                sort,
            },
            AddPlan::OfflineKey { public_key } => AddPlanView::OfflineKey {
                public_key: public_key@,
            },
            AddPlan::LedgerKey { coin_type, account, index } => AddPlanView::LedgerKey {
                coin_type,
                account,
                index,
            },
            AddPlan::Account {
                algorithm,
                path,
                mnemonic,
                ask_passphrase,
                show_mnemonic,
                dry_run,
            } => AddPlanView::Account {
                algorithm,
                path: path@,
                mnemonic,
                ask_passphrase,
                show_mnemonic,
                dry_run,
            },
        }
    }
}

/// The text of an option that was given: an option left out or left empty
/// counts as not given.
pub open spec fn given(option: Option<String>) -> Option<Seq<char>> {
    match option {
        Some(text) => if text@.len() > 0 {
            Some(text@)
        } else {
            None
        },
        None => None,
    }
}

/// Where the mnemonic comes from under the flags.
pub open spec fn mnemonic_source(recover: bool, interactive: bool) -> MnemonicSource {
    if recover {
        MnemonicSource::Ask
    } else if interactive {
        MnemonicSource::AskOrGenerate
    } else {
        MnemonicSource::Generate
    }
}

/// What `keys add` comes to under its options. The algorithm is looked up
/// first; a threshold key comes next unless this is a dry run, a public
/// key after it, a hardware device after that, and an account last. A path
/// that was written out does not go with a hardware device.
pub open spec fn add_plan(cmd: AddCmd, registry: AlgorithmRegistry) -> Result<
    AddPlanView,
    KeyringError,
> {
    match algorithm_named(cmd.algo@) {
        None => Err(KeyringError::UnsupportedAlgorithm),
        Some(algorithm) => if !registry.has(algorithm) {
            Err(KeyringError::UnsupportedAlgorithm)
        } else if !cmd.dry_run && given(cmd.multisig) is Some {
            let names = split_fields(given(cmd.multisig)->0, ',');
            if cmd.multisig_threshold <= 0 || cmd.multisig_threshold > names.len() {
                Err(KeyringError::InvalidThreshold)
            } else {
                Ok(
                    AddPlanView::Multisig {
                        member_names: names,
                        threshold: cmd.multisig_threshold as u32,
                        sort: !cmd.nosort,
                    },
                )
            }
        } else if given(cmd.pubkey) is Some {
            Ok(AddPlanView::OfflineKey { public_key: given(cmd.pubkey)->0 })
        } else if given(cmd.hd_path) is Some && cmd.ledger {
            Err(KeyringError::IncompatibleOptions)
        } else if cmd.ledger {
            Ok(
                AddPlanView::LedgerKey {
                    coin_type: cmd.coin_type,
                    account: cmd.account,
                    index: cmd.index,
                },
            )
        } else {
            let path = match given(cmd.hd_path) {
                Some(text) => path_of_text(text),
                None => if cmd.coin_type < HARDENED && cmd.account < HARDENED && cmd.index
                    < HARDENED {
                    Some(account_levels(cmd.coin_type, cmd.account, cmd.index))
                } else {
                    None
                },
            };
            match path {
                None => Err(KeyringError::IncompatibleOptions),
                Some(levels) => Ok(
                    AddPlanView::Account {
                        algorithm,
                        path: levels,
                        mnemonic: mnemonic_source(cmd.recover, cmd.interactive),
                        ask_passphrase: cmd.interactive,
                        show_mnemonic: !cmd.no_backup && !cmd.recover,
                        dry_run: cmd.dry_run,
                    },
                ),
            }
        },
    }
}

/// The text of an option, if it was given.
fn given_text(option: &Option<String>) -> (r: Option<&str>)
    ensures
        match r {
            Some(text) => given(*option) == Some(text@),
            None => given(*option) is None,
        },
{
    match option {
        Some(text) => {
            if text.as_str().unicode_len() > 0 {
                Some(text.as_str())
            } else {
                None
            }
        },
        None => None,
    }
}

/// The line with which the application greets.
pub const GREETING: &'static str = "Hello, amon wallet!";

/// The line that `keys add` prints.
pub const ADD_LINE: &'static str = "add subcommand!";

/// The line that `keys export` prints.
pub const EXPORT_LINE: &'static str = "export subcommand!";

/// The line that `keys show` prints.
pub const SHOW_LINE: &'static str = "keys show command!";

/// What running a command comes to: the lines that it prints, in the
/// order in which it prints them, and what it did or failed with. The
/// lines are printed whether the command fails or not.
#[derive(Debug)]
pub struct Report<T> {
    pub lines: Vec<&'static str>,
    pub result: Result<T, KeyringError>,
}

/// The prefix of the addresses of a key on a hardware device.
pub const LEDGER_ADDRESS_PREFIX: &'static str = "cosmos";

/// What the user answered where `keys add` asked, and what the program
/// read for it.
#[derive(Debug)]
pub struct AddAnswers {
    /// The mnemonic that was typed in; empty where none was.
    pub mnemonic: String,
    /// The passphrase that was typed in.
    pub passphrase: String,
    /// The passphrase as it was typed in again.
    pub passphrase_again: String,
    /// The password under which the secret is sealed.
    pub password: String,
    /// Whether the user gave leave to replace a key of the same name.
    pub replace: bool,
    /// The public key that the `pubkey` option reads as, if it reads as
    /// one.
    pub public_key: Option<PublicKey>,
}

/// What `keys add` made: what is told of the key, the mnemonic that was
/// generated for it, and the mnemonic that is to be shown.
#[derive(Debug)]
pub struct AddOutcome {
    pub summary: KeySummary,
    pub generated: Option<String>,
    pub shown: Option<String>,
}

/// What the user answered where a `keys` command asked.
#[derive(Debug)]
pub struct KeysAnswers {
    /// The answers for `keys add`.
    pub add: AddAnswers,
    /// The name of the key that the command is about.
    pub name: String,
    /// The name that a key is to have from now on.
    pub new_name: String,
    /// The password of the key.
    pub password: String,
    /// The armored text to take a key from.
    pub armored: String,
}

/// What a `keys` command did.
#[derive(Debug)]
pub enum KeysOutcome {
    Added(AddOutcome),
    Deleted,
    Exported(String),
    Imported(KeySummary),
    Listed(Vec<KeySummary>),
    /// A fresh mnemonic.
    Mnemonic(String),
    Renamed,
    Shown(KeySummary),
    /// The command has nothing to do in this keyring.
    Nothing,
}

/// What the application did.
#[derive(Debug)]
pub enum RunOutcome {
    /// The application has started.
    Started,
    Keys(KeysOutcome),
}

/// The characters of an owned text that may be missing.
pub open spec fn owned_view(text: Option<String>) -> Option<Seq<char>> {
    match text {
        Some(t) => Some(t@),
        None => None,
    }
}

/// The mnemonic that the account is made of: none where one is to be
/// generated, the answer where the user must supply one, and the answer
/// unless it is empty where the user may.
pub open spec fn chosen_mnemonic(source: MnemonicSource, answer: Seq<char>) -> Option<Seq<char>> {
    match source {
        MnemonicSource::Generate => None,
        MnemonicSource::Ask => Some(answer),
        MnemonicSource::AskOrGenerate => if answer.len() == 0 {
            None
        } else {
            Some(answer)
        },
    }
}

/// The passphrase that the account is made with: the empty one where none
/// is asked for; otherwise the answer, which must be the same when it is
/// typed in again unless it is empty.
pub open spec fn chosen_passphrase(ask: bool, first: Seq<char>, again: Seq<char>) -> Result<
    Seq<char>,
    KeyringError,
> {
    if !ask {
        Ok(Seq::empty())
    } else if first.len() > 0 && first != again {
        Err(KeyringError::InputAborted)
    } else {
        Ok(first)
    }
}

/// The mnemonic that is shown once the account is made: the one that the
/// account was made of, supplied or generated, where it is to be shown.
pub open spec fn shown_mnemonic(show: bool, supplied: Option<Seq<char>>, generated: Option<Seq<char>>) -> Option<
    Seq<char>,
> {
    if !show {
        None
    } else {
        match supplied {
            Some(words) => Some(words),
            None => generated,
        }
    }
}

/// The entries that the command works on: those of the store, without the
/// key of the same name where the user gave leave to replace it.
pub open spec fn base_entries(entries: Entries, name: Seq<char>, replace: bool) -> Entries {
    if replace {
        entries.remove(name)
    } else {
        entries
    }
}

/// Whether `r` tells of the entry of `plan` and the store took the entry
/// in, or `r` is the failure of the plan and the store stayed as it was.
pub open spec fn stored_as(
    plan: Result<EntryView, KeyringError>,
    base: Entries,
    after: Entries,
    r: Result<AddOutcome, KeyringError>,
) -> bool {
    match plan {
        Ok(entry) => r matches Ok(out) && out.summary@ == summary_of(entry) && out.generated is None
            && out.shown is None && after == base.insert(entry.name, entry),
        Err(e) => r matches Err(x) && x == e && after == base,
    }
}

/// Whether `r` tells of the entry of `plan`, or is the failure of the
/// plan, and the store stayed as it was either way.
pub open spec fn told_as(
    plan: Result<EntryView, KeyringError>,
    base: Entries,
    after: Entries,
    r: Result<AddOutcome, KeyringError>,
) -> bool {
    after == base && match plan {
        Ok(entry) => r matches Ok(out) && out.summary@ == summary_of(entry) && out.generated is None
            && out.shown is None,
        Err(e) => r matches Err(x) && x == e,
    }
}

/// The outcome of `keys add` as the outcome of making a new account.
pub open spec fn account_result(r: Result<AddOutcome, KeyringError>) -> Result<
    NewAccount,
    KeyringError,
> {
    match r {
        Ok(out) => Ok(NewAccount { summary: out.summary, mnemonic: out.generated }),
        Err(e) => Err(e),
    }
}

/// The value of a public key that may be missing.
pub open spec fn key_view(key: Option<PublicKey>) -> Option<PublicKeyView> {
    match key {
        Some(k) => Some(k@),
        None => None,
    }
}

/// Whether `r` and the store are what carrying out a plan comes to, on
/// entries `base`.
///
/// A threshold key, a public key and a key on a hardware device are
/// stored as the keyring stores them; in a dry run they are made up on a
/// store of their own and the store stays as it was. For an account the
/// mnemonic is settled first and must validate where the user supplied
/// it, the passphrase comes next, and the account is made as the keyring
/// makes a new account.
pub open spec fn carried_out(
    cmd: AddCmd,
    plan: AddPlanView,
    base: Entries,
    after: Entries,
    registry: AlgorithmRegistry,
    defaults: KeyringDefaults,
    answers: AddAnswers,
    r: Result<AddOutcome, KeyringError>,
) -> bool {
    match plan {
        AddPlanView::Multisig { member_names, threshold, sort } => stored_as(
            multisig_plan(base, cmd.name@, threshold, member_names, sort),
            base,
            after,
            r,
        ),
        AddPlanView::OfflineKey { .. } => match key_view(answers.public_key) {
            None => r matches Err(e) && e == KeyringError::MalformedKey && after == base,
            Some(key) => if cmd.dry_run {
                told_as(offline_plan(Entries::empty(), cmd.name@, key), base, after, r)
            } else {
                stored_as(offline_plan(base, cmd.name@, key), base, after, r)
            },
        },
        AddPlanView::LedgerKey { coin_type, account, index } => if cmd.dry_run {
            told_as(
                ledger_plan(
                    Entries::empty(),
                    registry.has(AlgorithmId::Secp256k1),
                    cmd.name@,
                    AlgorithmId::Secp256k1,
                    LEDGER_ADDRESS_PREFIX@,
                    coin_type,
                    account,
                    index,
                ),
                base,
                after,
                r,
            )
        } else {
            stored_as(
                ledger_plan(
                    base,
                    registry.has(AlgorithmId::Secp256k1),
                    cmd.name@,
                    AlgorithmId::Secp256k1,
                    LEDGER_ADDRESS_PREFIX@,
                    coin_type,
                    account,
                    index,
                ),
                base,
                after,
                r,
            )
        },
        AddPlanView::Account {
            algorithm,
            path,
            mnemonic,
            ask_passphrase,
            show_mnemonic,
            dry_run,
        } => {
            let words = chosen_mnemonic(mnemonic, answers.mnemonic@);
            if words is Some && !is_mnemonic(words->0) {
                r matches Err(e) && e == KeyringError::InvalidMnemonic && after == base
            } else {
                match chosen_passphrase(
                    ask_passphrase,
                    answers.passphrase@,
                    answers.passphrase_again@,
                ) {
                    Err(e) => r matches Err(x) && x == e && after == base,
                    Ok(passphrase) => made_new_account(
                        base,
                        after,
                        registry.has(algorithm),
                        defaults,
                        cmd.name@,
                        words,
                        passphrase,
                        Some(path_text(path)),
                        algorithm,
                        answers.password@,
                        dry_run,
                        account_result(r),
                    ) && (r matches Ok(out) ==> owned_view(out.shown) == shown_mnemonic(
                        show_mnemonic,
                        words,
                        owned_view(out.generated),
                    )),
                }
            }
        },
    }
}

/// Whether `r` and the store are what `keys add` comes to.
///
/// The plan of the command is made first, and its failure is the failure
/// of the command. Where the user gave leave to replace a key of the same
/// name, and this is no dry run, the plan is carried out as if that key
/// were gone, and the new key takes its place; without leave a taken name
/// is refused. Whatever fails, the store stays as it was, the old key
/// included.
pub open spec fn added(
    cmd: AddCmd,
    before: Entries,
    after: Entries,
    registry: AlgorithmRegistry,
    defaults: KeyringDefaults,
    answers: AddAnswers,
    r: Result<AddOutcome, KeyringError>,
) -> bool {
    match add_plan(cmd, registry) {
        Err(e) => r matches Err(x) && x == e && after == before,
        Ok(plan) => {
            let base = base_entries(before, cmd.name@, answers.replace && !cmd.dry_run);
            if r is Ok {
                carried_out(cmd, plan, base, after, registry, defaults, answers, r)
            } else {
                carried_out(cmd, plan, base, base, registry, defaults, answers, r) && after
                    == before
            }
        },
    }
}

/// A dry run of `keys add` stores nothing, and neither does a run that
/// fails.
pub proof fn lemma_dry_run_stores_nothing(
    cmd: AddCmd,
    before: Entries,
    after: Entries,
    registry: AlgorithmRegistry,
    defaults: KeyringDefaults,
    answers: AddAnswers,
    r: Result<AddOutcome, KeyringError>,
)
    requires
        added(cmd, before, after, registry, defaults, answers, r),
        cmd.dry_run || r is Err,
    ensures
        after == before,
{
}

/// A written path does not go with a key on a hardware device: `keys add`
/// refuses the two together, whatever else is asked, once the algorithm
/// is known and no threshold key or public key is asked for.
pub proof fn lemma_written_path_with_device_is_refused(
    cmd: AddCmd,
    before: Entries,
    after: Entries,
    registry: AlgorithmRegistry,
    defaults: KeyringDefaults,
    answers: AddAnswers,
    r: Result<AddOutcome, KeyringError>,
)
    requires
        added(cmd, before, after, registry, defaults, answers, r),
        algorithm_named(cmd.algo@) matches Some(id) && registry.has(id),
        cmd.dry_run || given(cmd.multisig) is None,
        given(cmd.pubkey) is None,
        given(cmd.hd_path) is Some,
        cmd.ledger,
    ensures
        r matches Err(e) && e == KeyringError::IncompatibleOptions,
        after == before,
{
}

/// Picks the mnemonic that the account is made of.
pub fn choose_mnemonic<'a>(source: MnemonicSource, answer: &'a str) -> (r: Option<&'a str>)
    ensures
        match r {
            Some(words) => chosen_mnemonic(source, answer@) == Some(words@),
            None => chosen_mnemonic(source, answer@) is None,
        },
{
    match source {
        MnemonicSource::Generate => None,
        MnemonicSource::Ask => Some(answer),
        MnemonicSource::AskOrGenerate => {
            if answer.unicode_len() == 0 {
                None
            } else {
                Some(answer)
            }
        },
    }
}

/// Picks the passphrase that the account is made with.
pub fn choose_passphrase<'a>(ask: bool, first: &'a str, again: &str) -> (r: Result<
    &'a str,
    KeyringError,
>)
    ensures
        match r {
            Ok(passphrase) => chosen_passphrase(ask, first@, again@) == Ok::<
                Seq<char>,
                KeyringError,
            >(passphrase@),
            Err(e) => chosen_passphrase(ask, first@, again@) == Err::<Seq<char>, KeyringError>(e),
        },
{
    if !ask {
        proof {
            reveal_strlit("");
        }
        assert(""@ =~= Seq::<char>::empty());
        Ok("")
    } else if first.unicode_len() > 0 && !crate::text::same_text(first, again) {
        Err(KeyringError::InputAborted)
    } else {
        Ok(first)
    }
}

/// Tells of an entry that was made without a mnemonic.
fn told(entry: &KeyEntry) -> (out: AddOutcome)
    ensures
        out.summary@ == summary_of(entry@),
        out.generated is None,
        out.shown is None,
{
    AddOutcome { summary: summarize(entry), generated: None, shown: None }
}

impl AddCmd {
    /// Carries out a plan on the keyring as it stands.
    fn carry_out<B: Backend>(&self, plan: AddPlan, keyring: &mut Keyring<B>, answers: AddAnswers) -> (r:
        Result<AddOutcome, KeyringError>)
        requires
            old(keyring).wf(),
        ensures
            final(keyring).wf(),
            final(keyring).registry() == old(keyring).registry(),
            final(keyring).derivation_defaults() == old(keyring).derivation_defaults(),
            r is Err ==> final(keyring).entries() == old(keyring).entries(),
            carried_out(
                *self,
                plan@,
                old(keyring).entries(),
                final(keyring).entries(),
                old(keyring).registry(),
                old(keyring).derivation_defaults(),
                answers,
                r,
            ),
    {
        let name = self.name.as_str();
        match plan {
            AddPlan::Multisig { member_names, threshold, sort } => {
                match keyring.save_multisig(name, threshold, &member_names, sort) {
                    Ok(entry) => Ok(told(&entry)),
                    Err(e) => Err(e),
                }
            },
            AddPlan::OfflineKey { .. } => {
                let key = match answers.public_key {
                    Some(key) => key,
                    None => {
                        return Err(KeyringError::MalformedKey);
                    },
                };
                let made = if self.dry_run {
                    let mut scratch = Keyring::init(
                        MemoryBackend::new(),
                        keyring.algorithms(),
                        keyring.defaults(),
                    );
                    scratch.save_offline_key(name, key)
                } else {
                    keyring.save_offline_key(name, key)
                };
                match made {
                    Ok(entry) => Ok(told(&entry)),
                    Err(e) => Err(e),
                }
            },
            AddPlan::LedgerKey { coin_type, account, index } => {
                let made = if self.dry_run {
                    let mut scratch = Keyring::init(
                        MemoryBackend::new(),
                        keyring.algorithms(),
                        keyring.defaults(),
                    );
                    scratch.save_ledger_key(
                        name,
                        AlgorithmId::Secp256k1,
                        LEDGER_ADDRESS_PREFIX,
                        coin_type,
                        account,
                        index,
                    )
                } else {
                    keyring.save_ledger_key(
                        name,
                        AlgorithmId::Secp256k1,
                        LEDGER_ADDRESS_PREFIX,
                        coin_type,
                        account,
                        index,
                    )
                };
                match made {
                    Ok(entry) => Ok(told(&entry)),
                    Err(e) => Err(e),
                }
            },
            AddPlan::Account {
                algorithm,
                path,
                mnemonic,
                ask_passphrase,
                show_mnemonic,
                dry_run,
            } => {
                let words = choose_mnemonic(mnemonic, answers.mnemonic.as_str());
                match words {
                    Some(w) => {
                        if !validate(w) {
                            return Err(KeyringError::InvalidMnemonic);
                        }
                    },
                    None => {},
                }
                let passphrase = match choose_passphrase(
                    ask_passphrase,
                    answers.passphrase.as_str(),
                    answers.passphrase_again.as_str(),
                ) {
                    Ok(passphrase) => passphrase,
                    Err(e) => {
                        return Err(e);
                    },
                };
                let written = path.to_text();
                match keyring.new_account(
                    name,
                    words,
                    passphrase,
                    Some(written.as_str()),
                    algorithm,
                    answers.password.as_str(),
                    dry_run,
                ) {
                    Err(e) => Err(e),
                    Ok(account) => {
                        let shown = if show_mnemonic {
                            match words {
                                Some(w) => Some(w.to_owned()),
                                None => match &account.mnemonic {
                                    Some(generated) => Some(generated.clone()),
                                    None => None,
                                },
                            }
                        } else {
                            None
                        };
                        Ok(
                            AddOutcome {
                                summary: account.summary,
                                generated: account.mnemonic,
                                shown,
                            },
                        )
                    },
                }
            },
        }
    }

    /// Makes or recovers a key, or records a public key, a key on a
    /// hardware device or a threshold key, as the options and the answers
    /// say.
    ///
    /// Nothing is asked here: the answers come with the call. A key of
    /// the same name is replaced only with the user's leave, and whatever
    /// fails, the store stays as it was. The command prints its one line
    /// either way.
    pub fn run<B: Backend>(&self, keyring: &mut Keyring<B>, answers: AddAnswers) -> (report: Report<
        AddOutcome,
    >)
        requires
            old(keyring).wf(),
        ensures
            final(keyring).wf(),
            final(keyring).registry() == old(keyring).registry(),
            final(keyring).derivation_defaults() == old(keyring).derivation_defaults(),
            report.lines@.len() == 1,
            report.lines@[0]@ == ADD_LINE@,
            added(
                *self,
                old(keyring).entries(),
                final(keyring).entries(),
                old(keyring).registry(),
                old(keyring).derivation_defaults(),
                answers,
                report.result,
            ),
    {
        let mut lines: Vec<&'static str> = Vec::new();
        lines.push(ADD_LINE);
        let result = self.perform(keyring, answers);
        Report { lines, result }
    }

    /// Carries out the command, with the old key of the name set aside
    /// where it may be replaced and put back where the command fails.
    fn perform<B: Backend>(&self, keyring: &mut Keyring<B>, answers: AddAnswers) -> (r: Result<
        AddOutcome,
        KeyringError,
    >)
        requires
            old(keyring).wf(),
        ensures
            final(keyring).wf(),
            final(keyring).registry() == old(keyring).registry(),
            final(keyring).derivation_defaults() == old(keyring).derivation_defaults(),
            added(
                *self,
                old(keyring).entries(),
                final(keyring).entries(),
                old(keyring).registry(),
                old(keyring).derivation_defaults(),
                answers,
                r,
            ),
    {
        let registry = keyring.algorithms();
        let plan = match self.plan(&registry) {
            Ok(plan) => plan,
            Err(e) => {
                return Err(e);
            },
        };
        let ghost before = keyring.entries();
        let name = self.name.as_str();
        let held: Option<KeyEntry> = if answers.replace && !self.dry_run {
            match keyring.backend().get(name) {
                Ok(entry) => Some(entry),
                Err(_) => None,
            }
        } else {
            None
        };
        proof {
            keyring.lemma_keyed_by_name();
        }
        match &held {
            Some(_) => {
                let _ = keyring.delete(name);
            },
            None => {},
        }
        let ghost base = base_entries(before, name@, answers.replace && !self.dry_run);
        assert(keyring.entries() =~= base);
        match self.carry_out(plan, keyring, answers) {
            Ok(out) => Ok(out),
            Err(e) => {
                match held {
                    Some(entry) => {
                        let _ = keyring.confirm_and_replace(entry);
                        assert(keyring.entries() =~= before);
                    },
                    None => {
                        assert(keyring.entries() =~= before);
                    },
                }
                Err(e)
            },
        }
    }

    /// Decides what the command is to do.
    pub fn plan(&self, registry: &AlgorithmRegistry) -> (r: Result<AddPlan, KeyringError>)
        ensures
            match r {
                Ok(plan) => add_plan(*self, *registry) == Ok::<AddPlanView, KeyringError>(plan@),
                Err(e) => add_plan(*self, *registry) == Err::<AddPlanView, KeyringError>(e),
            },
    {
        let algorithm = match registry.resolve(self.algo.as_str()) {
            Ok(id) => id,
            Err(e) => {
                return Err(e);
            },
        };
        if !self.dry_run {
            match given_text(&self.multisig) {
                Some(text) => {
                    let member_names = split_text(text, ',');
                    if self.multisig_threshold <= 0 || self.multisig_threshold as usize
                        > member_names.len() {
                        return Err(KeyringError::InvalidThreshold);
                    }
                    return Ok(
                        AddPlan::Multisig {
                            member_names,
                            threshold: self.multisig_threshold as u32,
                            sort: !self.nosort,
                        },
                    );
                },
                None => {},
            }
        }
        match given_text(&self.pubkey) {
            Some(text) => {
                return Ok(AddPlan::OfflineKey { public_key: text.to_owned() });
            },
            None => {},
        }
        let written = given_text(&self.hd_path);
        if written.is_some() && self.ledger {
            return Err(KeyringError::IncompatibleOptions);
        }
        if self.ledger {
            return Ok(
                AddPlan::LedgerKey {
                    coin_type: self.coin_type,
                    account: self.account,
                    index: self.index,
                },
            );
        }
        let path = match written {
            Some(text) => HDPath::parse(text),
            None => HDPath::build(self.coin_type, self.account, self.index),
        };
        match path {
            Err(e) => Err(e),
            Ok(path) => {
                let mnemonic = if self.recover {
                    MnemonicSource::Ask
                } else if self.interactive {
                    MnemonicSource::AskOrGenerate
                } else {
                    MnemonicSource::Generate
                };
                Ok(
                    AddPlan::Account {
                        algorithm,
                        path,
                        mnemonic,
                        ask_passphrase: self.interactive,
                        show_mnemonic: !self.no_backup && !self.recover,
                        dry_run: self.dry_run,
                    },
                )
            },
        }
    }

    /// The configuration under this command: as it was loaded.
    pub fn override_config(&self, config: AmonConfig) -> (r: Result<AmonConfig, KeyringError>)
        ensures
            r == Ok::<AmonConfig, KeyringError>(config),
    {
        Ok(config)
    }
}

impl ExportCmd {
    /// Writes the secret of the named key as armored text, opened with
    /// the password and sealed afresh under it. The store is only read,
    /// and the command prints its one line.
    pub fn run<B: Backend>(&self, keyring: &Keyring<B>, name: &str, password: &str) -> (report:
        Report<String>)
        requires
            keyring.wf(),
        ensures
            report.lines@.len() == 1,
            report.lines@[0]@ == EXPORT_LINE@,
            exported(
                keyring.entries(),
                name@,
                password@,
                keyring.derivation_defaults().kdf_rounds,
                report.result,
            ),
    {
        let mut lines: Vec<&'static str> = Vec::new();
        lines.push(EXPORT_LINE);
        Report { lines, result: keyring.export(name, password) }
    }

    /// The configuration under this command: as it was loaded.
    pub fn override_config(&self, config: AmonConfig) -> (r: Result<AmonConfig, KeyringError>)
        ensures
            r == Ok::<AmonConfig, KeyringError>(config),
    {
        Ok(config)
    }
}

impl ShowCmd {
    /// Tells of the named key what may be shown. No password is asked
    /// for and nothing is opened; the store is only read, and the command
    /// prints its one line.
    pub fn run<B: Backend>(&self, keyring: &Keyring<B>, name: &str) -> (report: Report<KeySummary>)
        requires
            keyring.wf(),
        ensures
            report.lines@.len() == 1,
            report.lines@[0]@ == SHOW_LINE@,
            shown(keyring.entries(), name@, report.result),
    {
        let mut lines: Vec<&'static str> = Vec::new();
        lines.push(SHOW_LINE);
        Report { lines, result: keyring.show(name) }
    }

    /// The configuration under this command: as it was loaded.
    pub fn override_config(&self, config: AmonConfig) -> (r: Result<AmonConfig, KeyringError>)
        ensures
            r == Ok::<AmonConfig, KeyringError>(config),
    {
        Ok(config)
    }
}

impl StartCmd {
    /// What the command prints when it runs, ahead of the configuration.
    pub fn run(&self) -> (lines: Vec<&'static str>)
        ensures
            lines@.len() == 1,
            lines@[0]@ == GREETING@,
    {
        let mut lines: Vec<&'static str> = Vec::new();
        lines.push(GREETING);
        lines
    }

    /// The configuration under this command: as it was loaded.
    pub fn override_config(&self, config: AmonConfig) -> (r: Result<AmonConfig, KeyringError>)
        ensures
            r == Ok::<AmonConfig, KeyringError>(config),
    {
        Ok(config)
    }
}

/// The line that a `keys` command prints for itself.
pub open spec fn keys_line(cmd: KeysCmd) -> Seq<char> {
    match cmd {
        KeysCmd::Add(_) => ADD_LINE@,
        KeysCmd::Delete(_) => "delete subcommand!"@,
        KeysCmd::Export(_) => EXPORT_LINE@,
        KeysCmd::Import(_) => "import subcommand!"@,
        KeysCmd::List(_) => "list subcommand!"@,
        KeysCmd::Migrate(_) => "migrate subcommand!"@,
        KeysCmd::Mnemonic(_) => "mnemonic subcommand!"@,
        KeysCmd::Parse(_) => "parse subcommand!"@,
        KeysCmd::Rename(_) => "rename subcommand!"@,
        KeysCmd::Show(_) => SHOW_LINE@,
    }
}

/// Whether `r` and the store are what a `keys` command comes to, with the
/// answers that came with it.
///
/// Each command is what the keyring makes of it: `add` as [`added`] says,
/// `delete` and `rename` as the store changes under them, `import` as an
/// armored text is taken in under the name, `export`, `show` and `list`
/// on a store that is only read. `mnemonic` draws a fresh mnemonic of the
/// default size and stores nothing. `migrate` and `parse` have nothing to
/// do in this keyring.
pub open spec fn keys_done(
    cmd: KeysCmd,
    before: Entries,
    after: Entries,
    registry: AlgorithmRegistry,
    defaults: KeyringDefaults,
    answers: KeysAnswers,
    r: Result<KeysOutcome, KeyringError>,
) -> bool {
    match cmd {
        KeysCmd::Add(add) => match r {
            Ok(KeysOutcome::Added(out)) => added(
                add,
                before,
                after,
                registry,
                defaults,
                answers.add,
                Ok(out),
            ),
            Ok(_) => false,
            Err(e) => added(add, before, after, registry, defaults, answers.add, Err(e)),
        },
        KeysCmd::Delete(_) => match r {
            Ok(KeysOutcome::Deleted) => changed_as(
                delete_result(before, answers.name@),
                before,
                after,
                Ok(()),
            ),
            Ok(_) => false,
            Err(e) => changed_as(delete_result(before, answers.name@), before, after, Err(e)),
        },
        KeysCmd::Export(_) => after == before && (match r {
            Ok(KeysOutcome::Exported(text)) => exported(
                before,
                answers.name@,
                answers.password@,
                defaults.kdf_rounds,
                Ok(text),
            ),
            Ok(_) => false,
            Err(e) => exported(
                before,
                answers.name@,
                answers.password@,
                defaults.kdf_rounds,
                Err(e),
            ),
        }),
        KeysCmd::Import(_) => match import_plan(
            before,
            registry,
            answers.name@,
            answers.armored@,
            answers.password@,
        ) {
            Ok(entry) => r matches Ok(KeysOutcome::Imported(summary)) && summary@ == summary_of(
                entry,
            ) && after == before.insert(entry.name, entry),
            Err(e) => r matches Err(x) && x == e && after == before,
        },
        KeysCmd::List(_) => r matches Ok(KeysOutcome::Listed(summaries)) && listed(
            before,
            summaries@,
        ) && after == before,
        KeysCmd::Migrate(_) => r matches Ok(KeysOutcome::Nothing) && after == before,
        KeysCmd::Mnemonic(_) => after == before && (if !accepted_entropy_bits(
            defaults.entropy_bits,
        ) {
            r matches Err(e) && e == KeyringError::InvalidMnemonic
        } else {
            match r {
                Ok(KeysOutcome::Mnemonic(words)) => is_mnemonic(words@) && word_count(words@)
                    == defaults.entropy_bits / 32 * 3,
                Ok(_) => false,
                Err(e) => e == KeyringError::InvalidMnemonic || e
                    == KeyringError::EntropyUnavailable,
            }
        }),
        KeysCmd::Parse(_) => r matches Ok(KeysOutcome::Nothing) && after == before,
        KeysCmd::Rename(_) => match r {
            Ok(KeysOutcome::Renamed) => changed_as(
                rename_result(before, answers.name@, answers.new_name@),
                before,
                after,
                Ok(()),
            ),
            Ok(_) => false,
            Err(e) => changed_as(
                rename_result(before, answers.name@, answers.new_name@),
                before,
                after,
                Err(e),
            ),
        },
        KeysCmd::Show(_) => after == before && (match r {
            Ok(KeysOutcome::Shown(summary)) => shown(before, answers.name@, Ok(summary)),
            Ok(_) => false,
            Err(e) => shown(before, answers.name@, Err(e)),
        }),
    }
}

/// Whether the lines are those that the application prints: the
/// greeting, and behind it the line of the `keys` command that was chosen.
pub open spec fn run_prints(cmd: AmonCmd, lines: Seq<&'static str>) -> bool {
    match cmd {
        AmonCmd::Start(_) => lines.len() == 1 && lines[0]@ == GREETING@,
        AmonCmd::Keys(keys) => lines.len() == 2 && lines[0]@ == GREETING@ && lines[1]@
            == keys_line(keys),
    }
}

/// Whether `r` and the store are what the application comes to: `start`
/// leaves the store alone, and a `keys` command is what [`keys_done`]
/// says.
pub open spec fn run_done(
    cmd: AmonCmd,
    before: Entries,
    after: Entries,
    registry: AlgorithmRegistry,
    defaults: KeyringDefaults,
    answers: KeysAnswers,
    r: Result<RunOutcome, KeyringError>,
) -> bool {
    match cmd {
        AmonCmd::Start(_) => r matches Ok(RunOutcome::Started) && after == before,
        AmonCmd::Keys(keys) => match r {
            Ok(RunOutcome::Keys(out)) => keys_done(
                keys,
                before,
                after,
                registry,
                defaults,
                answers,
                Ok(out),
            ),
            Ok(_) => false,
            Err(e) => keys_done(keys, before, after, registry, defaults, answers, Err(e)),
        },
    }
}

/// Whatever a command fails with, the store stays as it was.
pub proof fn lemma_failure_leaves_the_store(
    cmd: AmonCmd,
    before: Entries,
    after: Entries,
    registry: AlgorithmRegistry,
    defaults: KeyringDefaults,
    answers: KeysAnswers,
    r: Result<RunOutcome, KeyringError>,
)
    requires
        run_done(cmd, before, after, registry, defaults, answers, r),
        r is Err,
    ensures
        after == before,
{
}

impl KeysCmd {
    /// The line that the command prints for itself.
    pub fn line(&self) -> (line: &'static str)
        ensures
            line@ == keys_line(*self),
    {
        match self {
            KeysCmd::Add(_) => ADD_LINE,
            KeysCmd::Delete(_) => "delete subcommand!",
            KeysCmd::Export(_) => EXPORT_LINE,
            KeysCmd::Import(_) => "import subcommand!",
            KeysCmd::List(_) => "list subcommand!",
            KeysCmd::Migrate(_) => "migrate subcommand!",
            KeysCmd::Mnemonic(_) => "mnemonic subcommand!",
            KeysCmd::Parse(_) => "parse subcommand!",
            KeysCmd::Rename(_) => "rename subcommand!",
            KeysCmd::Show(_) => SHOW_LINE,
        }
    }

    /// Runs the command that was chosen on the keyring, with the answers
    /// that came with it. The greeting is printed first and the line of
    /// the command behind it, whether the command fails or not.
    pub fn run<B: Backend>(&self, keyring: &mut Keyring<B>, answers: KeysAnswers) -> (report:
        Report<KeysOutcome>)
        requires
            old(keyring).wf(),
        ensures
            final(keyring).wf(),
            final(keyring).registry() == old(keyring).registry(),
            final(keyring).derivation_defaults() == old(keyring).derivation_defaults(),
            report.lines@.len() == 2,
            report.lines@[0]@ == GREETING@,
            report.lines@[1]@ == keys_line(*self),
            keys_done(
                *self,
                old(keyring).entries(),
                final(keyring).entries(),
                old(keyring).registry(),
                old(keyring).derivation_defaults(),
                answers,
                report.result,
            ),
    {
        let mut lines: Vec<&'static str> = Vec::new();
        lines.push(GREETING);
        lines.push(self.line());
        let result = match self {
            KeysCmd::Add(cmd) => match cmd.run(keyring, answers.add).result {
                Ok(out) => Ok(KeysOutcome::Added(out)),
                Err(e) => Err(e),
            },
            KeysCmd::Delete(_) => match keyring.delete(answers.name.as_str()) {
                Ok(()) => Ok(KeysOutcome::Deleted),
                Err(e) => Err(e),
            },
            KeysCmd::Export(cmd) => match cmd.run(
                keyring,
                answers.name.as_str(),
                answers.password.as_str(),
            ).result {
                Ok(text) => Ok(KeysOutcome::Exported(text)),
                Err(e) => Err(e),
            },
            KeysCmd::Import(_) => match keyring.import(
                answers.name.as_str(),
                answers.armored.as_str(),
                answers.password.as_str(),
            ) {
                Ok(entry) => Ok(KeysOutcome::Imported(summarize(&entry))),
                Err(e) => Err(e),
            },
            KeysCmd::List(_) => Ok(KeysOutcome::Listed(keyring.list())),
            KeysCmd::Migrate(_) => Ok(KeysOutcome::Nothing),
            KeysCmd::Mnemonic(_) => {
                let bits = keyring.defaults().entropy_bits;
                match Mnemonic::generate(bits) {
                    Ok(mnemonic) => Ok(KeysOutcome::Mnemonic(mnemonic.phrase().to_owned())),
                    Err(e) => Err(e),
                }
            },
            KeysCmd::Parse(_) => Ok(KeysOutcome::Nothing),
            KeysCmd::Rename(_) => match keyring.rename(
                answers.name.as_str(),
                answers.new_name.as_str(),
            ) {
                Ok(()) => Ok(KeysOutcome::Renamed),
                Err(e) => Err(e),
            },
            KeysCmd::Show(cmd) => match cmd.run(keyring, answers.name.as_str()).result {
                Ok(summary) => Ok(KeysOutcome::Shown(summary)),
                Err(e) => Err(e),
            },
        };
        Report { lines, result }
    }

    /// The configuration under this command: as it was loaded.
    pub fn override_config(&self, config: AmonConfig) -> (r: Result<AmonConfig, KeyringError>)
        ensures
            r == Ok::<AmonConfig, KeyringError>(config),
    {
        Ok(config)
    }
}

impl AmonCmd {
    /// Runs the command that was chosen. The greeting is printed first,
    /// and behind it the line of a `keys` command.
    pub fn run<B: Backend>(&self, keyring: &mut Keyring<B>, answers: KeysAnswers) -> (report:
        Report<RunOutcome>)
        requires
            old(keyring).wf(),
        ensures
            final(keyring).wf(),
            final(keyring).registry() == old(keyring).registry(),
            final(keyring).derivation_defaults() == old(keyring).derivation_defaults(),
            run_prints(*self, report.lines@),
            run_done(
                *self,
                old(keyring).entries(),
                final(keyring).entries(),
                old(keyring).registry(),
                old(keyring).derivation_defaults(),
                answers,
                report.result,
            ),
    {
        match self {
            AmonCmd::Start(cmd) => {
                let lines = cmd.run();
                Report { lines, result: Ok(RunOutcome::Started) }
            },
            AmonCmd::Keys(cmd) => {
                let sub = cmd.run(keyring, answers);
                let result = match sub.result {
                    Ok(out) => Ok(RunOutcome::Keys(out)),
                    Err(e) => Err(e),
                };
                Report { lines: sub.lines, result }
            },
        }
    }
}

impl EntryPoint {
    /// Runs the command that was chosen. The greeting is printed first.
    /// Every failure comes back as its kind, nothing is tried again, and
    /// the store stays as it was.
    pub fn run<B: Backend>(&self, keyring: &mut Keyring<B>, answers: KeysAnswers) -> (report:
        Report<RunOutcome>)
        requires
            old(keyring).wf(),
        ensures
            final(keyring).wf(),
            final(keyring).registry() == old(keyring).registry(),
            final(keyring).derivation_defaults() == old(keyring).derivation_defaults(),
            run_prints(self.cmd, report.lines@),
            run_done(
                self.cmd,
                old(keyring).entries(),
                final(keyring).entries(),
                old(keyring).registry(),
                old(keyring).derivation_defaults(),
                answers,
                report.result,
            ),
            report.result is Err ==> final(keyring).entries() == old(keyring).entries(),
    {
        self.cmd.run(keyring, answers)
    }

    /// Chooses the configuration file: the default file where it is there,
    /// and none otherwise.
    ///
    /// `default_file` is the default place, where one could be found, and
    /// `exists` says whether a file is there.
    pub fn config_path(&self, default_file: Option<String>, exists: bool) -> (choice: ConfigChoice)
        ensures
            match default_file {
                Some(path) => if exists {
                    choice.path == Some(path) && choice.notice == ConfigNotice::UsingDefault
                } else {
                    choice.path is None && choice.notice == ConfigNotice::MissingFile
                },
                None => choice.path is None && choice.notice == ConfigNotice::NoDefaultPlace,
            },
    {
        match default_file {
            Some(path) => {
                if exists {
                    ConfigChoice { path: Some(path), notice: ConfigNotice::UsingDefault }
                } else {
                    ConfigChoice { path: None, notice: ConfigNotice::MissingFile }
                }
            },
            None => ConfigChoice { path: None, notice: ConfigNotice::NoDefaultPlace },
        }
    }

    /// The configuration under the chosen command: as it was loaded.
    pub fn process_config(&self, config: AmonConfig) -> (r: Result<AmonConfig, KeyringError>)
        ensures
            r == Ok::<AmonConfig, KeyringError>(config),
    {
        match &self.cmd {
            AmonCmd::Start(cmd) => cmd.override_config(config),
            AmonCmd::Keys(cmd) => cmd.override_config(config),
        }
    }
}

/// The note that goes with a mnemonic that is shown.
pub open spec fn mnemonic_note(mnemonic: Seq<char>) -> Seq<char> {
    "\n**Important** write this mnemonic phrase in a safe place.\nIt is the only way to recover your account if you ever forget your password.\n\n"@
        + mnemonic + "\n"@
}

/// What is printed once a key was made: in text form the note with the
/// mnemonic where it is to be shown, and nothing otherwise.
pub fn create_message(show_mnemonic: bool, mnemonic: &str, output_format: OutputFormat) -> (r:
    Option<String>)
    ensures
        match r {
            Some(text) => output_format == OutputFormat::Text && show_mnemonic && text@
                == mnemonic_note(mnemonic@),
            None => !(output_format == OutputFormat::Text && show_mnemonic),
        },
{
    match output_format {
        OutputFormat::Text => {
            if show_mnemonic {
                let mut out: Vec<char> = Vec::new();
                push_text(
                    &mut out,
                    "\n**Important** write this mnemonic phrase in a safe place.\nIt is the only way to recover your account if you ever forget your password.\n\n",
                );
                push_text(&mut out, mnemonic);
                push_text(&mut out, "\n");
                Some(string_of(&out))
            } else {
                None
            }
        },
        OutputFormat::Json => None,
    }
}

} // verus!
