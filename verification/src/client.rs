//! Building the client of one federation, and the records that the builder
//! keeps of the federations it has built clients for.
//!
//! A client is built in steps that are carried out outside: the storage of
//! the federation is opened, the client secret is loaded or, where there is
//! none, generated and stored, the federation's configuration is fetched
//! unless the storage holds it, and the client is put together with its
//! wallet, mint and lightning modules. [`LocalClientBuilder::build`] takes
//! what came of a step and says which step is next.
//!
//! The secret is the seed of every key of the client. A secret that was
//! generated is stored before anything is derived from it, and a failure
//! after that leaves it stored: the next build for the federation loads it,
//! and no second one is generated. A secret is generated only where the
//! storage is known to hold none: where loading fails for another reason,
//! the build fails, and what the storage holds is left as it is.

use crate::db::{FederationConfig, FederationConfigView, FederationIdKey};
use crate::error::{AppError, AppErrorView, ErrorKind};
use crate::federation::{InviteCode, InviteCodeView};
use crate::hex::{hex_encode, push_hex};
use crate::id_map::{keys_ascending, IdMap};
use std::path::PathBuf;
use vstd::prelude::*;
use vstd::string::*;

verus! {

/// `std::path::PathBuf`, a path of the file system. It is carried through as
/// it is: nothing is said of what is inside one.
#[verifier::external_type_specification]
#[verifier::external_body]
pub struct ExPathBuf(PathBuf);

/// `fedimint_client::derivable_secret::DerivableSecret`, the root secret of
/// a client, from which the client derives its keys. It is carried through as
/// it is: nothing is said of what is inside one.
#[verifier::external_type_specification]
#[verifier::external_body]
pub struct ExDerivableSecret(fedimint_client::derivable_secret::DerivableSecret);

/// The module of a client that is its primary one: the mint.
pub const PRIMARY_MODULE: u16 = 1;

/// The secret of a client: 64 bytes from which its keys are derived.
#[derive(Clone, Copy, Debug, PartialEq, Eq)]
pub struct ClientSecret(pub [u8; 64]);

/// Draws a secret with `PlainRootSecretStrategy::random` of
/// `fedimint_client`, from the generator that `rand::thread_rng` gives.
/// Nothing is promised of the bytes that come back: they are drawn at
/// random, and one call tells nothing of the next. The generator is seeded
/// by the operating system, and there is no secret to be had where the
/// system gives no randomness.
#[verifier::external_body]
fn random_secret() -> ClientSecret {
    ClientSecret(
        <fedimint_client::secret::PlainRootSecretStrategy as fedimint_client::secret::RootSecretStrategy>::random(
            &mut rand::thread_rng(),
        ),
    )
}

/// Derives the root secret with `PlainRootSecretStrategy::to_root_secret` of
/// `fedimint_client`: the secret that [`plain_root_secret`] names for the bytes.
#[verifier::external_body]
fn derive_root_secret(secret: &ClientSecret) -> (root: fedimint_client::derivable_secret::DerivableSecret)
    ensures
        root == plain_root_secret(secret.0@),
{
    <fedimint_client::secret::PlainRootSecretStrategy as fedimint_client::secret::RootSecretStrategy>::to_root_secret(&secret.0)
}

impl ClientSecret {
    /// The root secret that the client derives its keys from.
    pub fn to_root_secret(&self) -> (root: fedimint_client::derivable_secret::DerivableSecret)
        ensures
            root == plain_root_secret(self.0@),
    {
        derive_root_secret(self)
    }
}

/// The root secret that `PlainRootSecretStrategy::to_root_secret` of
/// `fedimint_client` derives from the 64 bytes of a client secret. It is a
/// key derivation of the bytes with a salt that is fixed, and of nothing
/// else: the same bytes give the same root secret wherever and whenever it
/// is derived.
pub uninterp spec fn plain_root_secret(secret: Seq<u8>) -> fedimint_client::derivable_secret::DerivableSecret;

/// The stage that a build is at.
#[derive(Clone, Copy, Debug, PartialEq, Eq)]
pub enum BuildState {
    /// Nothing has been done.
    Start,
    /// The storage of the federation is being opened.
    OpeningStorage,
    /// The secret is being loaded from the storage.
    LoadingSecret,
    /// The storage holds no secret; one is being generated.
    GeneratingSecret,
    /// The generated secret is being stored. It is not in use yet.
    StoringSecret { secret: ClientSecret },
    /// The secret is in the storage; the storage is being asked whether it
    /// holds the federation's configuration.
    CheckingConfig { secret: ClientSecret },
    /// The federation's configuration is being fetched with the invite code.
    FetchingInfo { secret: ClientSecret },
    /// The client is being put together.
    Assembling,
    /// The client is built.
    Done,
    /// The build has failed.
    Failed,
}

/// What has happened in a build.
pub enum BuildEvent {
    /// The build is to begin.
    Begin,
    /// The storage is open.
    StorageOpened,
    /// The storage could not be opened.
    StorageFailed(String),
    /// The storage holds this secret.
    SecretLoaded(ClientSecret),
    /// The storage holds no secret.
    SecretMissing,
    /// The storage could not be read, or what it holds is not a secret:
    /// whether there is a secret is not known.
    SecretLoadFailed(String),
    /// This secret has been generated.
    SecretGenerated(ClientSecret),
    /// The generated secret is stored.
    SecretStored,
    /// The generated secret could not be stored.
    SecretStoreFailed(String),
    /// The storage holds the federation's configuration.
    ConfigCached,
    /// The storage does not hold the federation's configuration.
    ConfigMissing,
    /// The federation's configuration has been fetched.
    InfoFetched,
    /// The federation's configuration could not be fetched.
    InfoFetchFailed(String),
    /// The client has been put together.
    Assembled,
    /// The client could not be put together.
    AssembleFailed(String),
}

/// What is to be done next in a build.
#[derive(Debug, PartialEq, Eq)]
pub enum BuildAction {
    /// Open the storage of the federation: the file of this name in the
    /// working directory.
    OpenStorage { file_name: String },
    /// Load the secret from the storage.
    LoadSecret,
    /// Generate a secret at random.
    GenerateSecret,
    /// Store this secret.
    StoreSecret(ClientSecret),
    /// Ask the storage whether it holds the federation's configuration.
    CheckConfig,
    /// Fetch the federation's configuration with this invite code.
    FetchInfo(InviteCode),
    /// Put the client together over the storage, with its wallet, mint and
    /// lightning modules and `primary_module` as the primary one, with the
    /// root secret derived from `secret`, and with the configuration that
    /// was fetched where `with_fetched_info` says so.
    Assemble { secret: ClientSecret, with_fetched_info: bool, primary_module: u16 },
    /// Nothing: the client is built.
    Finish,
    /// Nothing: the build has failed with this error.
    Abort(AppError),
    /// Nothing: the event does not belong to the stage the build is at.
    Ignore,
}

/// What a [`BuildAction`] says.
pub enum BuildActionView {
    OpenStorage { file_name: Seq<char> },
    LoadSecret,
    GenerateSecret,
    StoreSecret(ClientSecret),
    CheckConfig,
    FetchInfo(InviteCodeView),
    Assemble { secret: ClientSecret, with_fetched_info: bool, primary_module: u16 },
    Finish,
    Abort(AppErrorView),
    Ignore,
}

impl View for BuildAction {
    type V = BuildActionView;

    open spec fn view(&self) -> BuildActionView {
        match self {
            BuildAction::OpenStorage { file_name } => BuildActionView::OpenStorage {
                file_name: file_name@,
            },
            BuildAction::LoadSecret => BuildActionView::LoadSecret,
            BuildAction::GenerateSecret => BuildActionView::GenerateSecret,
            BuildAction::StoreSecret(secret) => BuildActionView::StoreSecret(*secret),
            BuildAction::CheckConfig => BuildActionView::CheckConfig,
            BuildAction::FetchInfo(invite_code) => BuildActionView::FetchInfo(invite_code@),
            BuildAction::Assemble { secret, with_fetched_info, primary_module } => {
                BuildActionView::Assemble {
                    secret: *secret,
                    with_fetched_info: *with_fetched_info,
                    primary_module: *primary_module,
                }
            },
            BuildAction::Finish => BuildActionView::Finish,
            BuildAction::Abort(error) => BuildActionView::Abort(error@),
            BuildAction::Ignore => BuildActionView::Ignore,
        }
    }
}

/// The name of the file that holds the storage of a federation: the
/// identifier in hexadecimal digits, and `.db`.
pub open spec fn storage_name(federation_id: Seq<u8>) -> Seq<char> {
    hex_encode(federation_id) + ".db"@
}

/// The failure of a build, for the reason given.
pub open spec fn build_failure(reason: Seq<char>) -> AppErrorView {
    AppErrorView { kind: ErrorKind::Build, message: reason }
}

/// The stage of the build for `config` after `event`, and what is to be
/// done next. An event that does not belong to the stage changes nothing
/// and asks for nothing.
pub open spec fn build_step(config: FederationConfigView, state: BuildState, event: BuildEvent) -> (
    BuildState,
    BuildActionView,
) {
    match (state, event) {
        (BuildState::Start, BuildEvent::Begin) => (
            BuildState::OpeningStorage,
            BuildActionView::OpenStorage {
                file_name: storage_name(config.invite_code.federation_id),
            },
        ),
        (BuildState::OpeningStorage, BuildEvent::StorageOpened) => (
            BuildState::LoadingSecret,
            BuildActionView::LoadSecret,
        ),
        (BuildState::OpeningStorage, BuildEvent::StorageFailed(reason)) => (
            BuildState::Failed,
            BuildActionView::Abort(build_failure(reason@)),
        ),
        (BuildState::LoadingSecret, BuildEvent::SecretLoaded(secret)) => (
            BuildState::CheckingConfig { secret },
            BuildActionView::CheckConfig,
        ),
        (BuildState::LoadingSecret, BuildEvent::SecretMissing) => (
            BuildState::GeneratingSecret,
            BuildActionView::GenerateSecret,
        ),
        (BuildState::LoadingSecret, BuildEvent::SecretLoadFailed(reason)) => (
            BuildState::Failed,
            BuildActionView::Abort(build_failure(reason@)),
        ),
        (BuildState::GeneratingSecret, BuildEvent::SecretGenerated(secret)) => (
            BuildState::StoringSecret { secret },
            BuildActionView::StoreSecret(secret),
        ),
        (BuildState::StoringSecret { secret }, BuildEvent::SecretStored) => (
            BuildState::CheckingConfig { secret },
            BuildActionView::CheckConfig,
        ),
        (BuildState::StoringSecret { secret }, BuildEvent::SecretStoreFailed(reason)) => (
            BuildState::Failed,
            BuildActionView::Abort(build_failure(reason@)),
        ),
        (BuildState::CheckingConfig { secret }, BuildEvent::ConfigCached) => (
            BuildState::Assembling,
            BuildActionView::Assemble {
                secret,
                with_fetched_info: false,
                primary_module: PRIMARY_MODULE,
            },
        ),
        (BuildState::CheckingConfig { secret }, BuildEvent::ConfigMissing) => (
            BuildState::FetchingInfo { secret },
            BuildActionView::FetchInfo(config.invite_code),
        ),
        (BuildState::FetchingInfo { secret }, BuildEvent::InfoFetched) => (
            BuildState::Assembling,
            BuildActionView::Assemble {
                secret,
                with_fetched_info: true,
                primary_module: PRIMARY_MODULE,
            },
        ),
        (BuildState::FetchingInfo { secret }, BuildEvent::InfoFetchFailed(reason)) => (
            BuildState::Failed,
            BuildActionView::Abort(build_failure(reason@)),
        ),
        (BuildState::Assembling, BuildEvent::Assembled) => (
            BuildState::Done,
            BuildActionView::Finish,
        ),
        (BuildState::Assembling, BuildEvent::AssembleFailed(reason)) => (
            BuildState::Failed,
            BuildActionView::Abort(build_failure(reason@)),
        ),
        _ => (state, BuildActionView::Ignore),
    }
}

/// The map that the entries of the store stand for: each record under its
/// key, a later entry in the place of an earlier one with the same key.
pub open spec fn collected(entries: Seq<(FederationIdKey, FederationConfig)>) -> Map<
    Seq<u8>,
    FederationConfig,
>
    decreases entries.len(),
{
    if entries.len() == 0 {
        Map::empty()
    } else {
        collected(entries.drop_last()).insert(entries.last().0.id@, entries.last().1)
    }
}

/// Whether `configs` are the records of `records` in ascending order of
/// their keys, which are `keys`.
pub open spec fn listed_by_key(
    records: Map<Seq<u8>, FederationConfig>,
    keys: Seq<Seq<u8>>,
    configs: Seq<FederationConfig>,
) -> bool {
    &&& keys_ascending(keys)
    &&& forall|key: Seq<u8>| records.contains_key(key) <==> keys.contains(key)
    &&& configs.len() == keys.len()
    &&& forall|i: int| 0 <= i < keys.len() ==> (#[trigger] configs[i])@ == records[keys[i]]@
}

/// Builds federation clients whose storage lies under one working directory.
#[derive(Debug)]
pub struct LocalClientBuilder {
    work_dir: PathBuf,
}

impl LocalClientBuilder {
    /// The directory under which the clients' storage lies.
    pub closed spec fn dir(&self) -> PathBuf {
        self.work_dir
    }

    /// A builder that keeps its clients' storage under `work_dir`.
    pub fn new(work_dir: PathBuf) -> (builder: Self)
        ensures
            builder.dir() == work_dir,
    {
        Self { work_dir }
    }

    /// The directory under which the clients' storage lies.
    pub fn work_dir(&self) -> (dir: &PathBuf)
        ensures
            *dir == self.dir(),
    {
        &self.work_dir
    }

    /// Generates a secret for a client whose storage holds none, and
    /// reports it: the event is to be handed to [`LocalClientBuilder::build`],
    /// which asks for the secret to be stored before it is used.
    pub fn generate_secret(&self) -> (event: BuildEvent)
        ensures
            event is SecretGenerated,
    {
        BuildEvent::SecretGenerated(random_secret())
    }

    /// Takes one event of the build of the client for `config` and says
    /// what is to be done next.
    pub fn build(&self, config: &FederationConfig, state: BuildState, event: BuildEvent) -> (r: (
        BuildState,
        BuildAction,
    ))
        ensures
            (r.0, r.1@) == build_step(config@, state, event),
    {
        match (state, event) {
            (BuildState::Start, BuildEvent::Begin) => {
                let mut file_name = String::new();
                push_hex(&mut file_name, config.federation_id().0.as_slice());
                file_name.append(".db");
                assert(file_name@ =~= storage_name(config@.invite_code.federation_id));
                (BuildState::OpeningStorage, BuildAction::OpenStorage { file_name })
            },
            (BuildState::OpeningStorage, BuildEvent::StorageOpened) => (
                BuildState::LoadingSecret,
                BuildAction::LoadSecret,
            ),
            (BuildState::OpeningStorage, BuildEvent::StorageFailed(reason)) => (
                BuildState::Failed,
                BuildAction::Abort(AppError::new(ErrorKind::Build, reason)),
            ),
            (BuildState::LoadingSecret, BuildEvent::SecretLoaded(secret)) => (
                BuildState::CheckingConfig { secret },
                BuildAction::CheckConfig,
            ),
            (BuildState::LoadingSecret, BuildEvent::SecretMissing) => (
                BuildState::GeneratingSecret,
                BuildAction::GenerateSecret,
            ),
            (BuildState::LoadingSecret, BuildEvent::SecretLoadFailed(reason)) => (
                BuildState::Failed,
                BuildAction::Abort(AppError::new(ErrorKind::Build, reason)),
            ),
            (BuildState::GeneratingSecret, BuildEvent::SecretGenerated(secret)) => (
                BuildState::StoringSecret { secret },
                BuildAction::StoreSecret(secret),
            ),
            (BuildState::StoringSecret { secret }, BuildEvent::SecretStored) => (
                BuildState::CheckingConfig { secret },
                BuildAction::CheckConfig,
            ),
            (BuildState::StoringSecret { secret }, BuildEvent::SecretStoreFailed(reason)) => (
                BuildState::Failed,
                BuildAction::Abort(AppError::new(ErrorKind::Build, reason)),
            ),
            (BuildState::CheckingConfig { secret }, BuildEvent::ConfigCached) => (
                BuildState::Assembling,
                BuildAction::Assemble {
                    secret,
                    with_fetched_info: false,
                    primary_module: PRIMARY_MODULE,
                },
            ),
            (BuildState::CheckingConfig { secret }, BuildEvent::ConfigMissing) => (
                BuildState::FetchingInfo { secret },
                BuildAction::FetchInfo(config.invite_code.clone()),
            ),
            (BuildState::FetchingInfo { secret }, BuildEvent::InfoFetched) => (
                BuildState::Assembling,
                BuildAction::Assemble {
                    secret,
                    with_fetched_info: true,
                    primary_module: PRIMARY_MODULE,
                },
            ),
            (BuildState::FetchingInfo { secret }, BuildEvent::InfoFetchFailed(reason)) => (
                BuildState::Failed,
                BuildAction::Abort(AppError::new(ErrorKind::Build, reason)),
            ),
            (BuildState::Assembling, BuildEvent::Assembled) => (
                BuildState::Done,
                BuildAction::Finish,
            ),
            (BuildState::Assembling, BuildEvent::AssembleFailed(reason)) => (
                BuildState::Failed,
                BuildAction::Abort(AppError::new(ErrorKind::Build, reason)),
            ),
            (state, _) => (state, BuildAction::Ignore),
        }
    }

    /// The entry under which the record `config` is written to the store:
    /// the record under the identifier of its federation.
    pub fn save_config(&self, config: FederationConfig) -> (entry: (
        FederationIdKey,
        FederationConfig,
    ))
        ensures
            entry.0.id@ == config@.invite_code.federation_id,
            entry.1 == config,
    {
        let id = config.federation_id();
        (FederationIdKey { id }, config)
    }

    /// The records of the store, from its entries as they were read: one
    /// record for each key, in ascending order of the keys. Where a key was
    /// read more than once, its last entry counts.
    pub fn load_configs(&self, entries: &Vec<(FederationIdKey, FederationConfig)>) -> (configs: Vec<
        FederationConfig,
    >)
        ensures
            exists|keys: Seq<Seq<u8>>| #[trigger] listed_by_key(collected(entries@), keys, configs@),
    {
        let mut records: IdMap<FederationConfig> = IdMap::new();
        let mut i: usize = 0;
        assert(entries@.subrange(0, 0) =~= Seq::<(FederationIdKey, FederationConfig)>::empty());
        while i < entries.len()
            invariant
                i <= entries@.len(),
                records.wf(),
                records@.dom() == collected(entries@.subrange(0, i as int)).dom(),
                forall|key: Seq<u8>|
                    records@.contains_key(key) ==> (#[trigger] records@[key])@ == collected(
                        entries@.subrange(0, i as int),
                    )[key]@,
            decreases entries@.len() - i,
        {
            let ghost before = records@;
            let ghost so_far = collected(entries@.subrange(0, i as int));
            proof {
                let next = entries@.subrange(0, i + 1);
                assert(next.drop_last() =~= entries@.subrange(0, i as int));
                assert(next.last() == entries@[i as int]);
            }
            let entry = &entries[i];
            records.insert(entry.0.id, entry.1.clone());
            proof {
                let now = collected(entries@.subrange(0, i + 1));
                assert(now == so_far.insert(entry.0.id@, entry.1));
                assert(records@.dom() =~= now.dom());
                assert forall|key: Seq<u8>| records@.contains_key(key) implies (
                #[trigger] records@[key])@ == now[key]@ by {
                    if key != entry.0.id@ {
                        assert(before.contains_key(key));
                        assert(records@[key] == before[key]);
                    }
                }
            }
            i += 1;
        }
        assert(entries@.subrange(0, i as int) =~= entries@);
        let n = records.len();
        let mut configs: Vec<FederationConfig> = Vec::new();
        let mut at: usize = 0;
        proof {
            records.lemma_keys();
        }
        while at < n
            invariant
                records.wf(),
                n == records.keys().len(),
                at <= n,
                configs@.len() == at,
                records@.dom() == collected(entries@).dom(),
                forall|key: Seq<u8>|
                    records@.contains_key(key) ==> (#[trigger] records@[key])@ == collected(
                        entries@,
                    )[key]@,
                forall|j: int|
                    0 <= j < at ==> (#[trigger] configs@[j])@ == collected(
                        entries@,
                    )[records.keys()[j]]@,
            decreases n - at,
        {
            let value = records.value_at(at);
            let ghost key = records.keys()[at as int];
            assert(records@.contains_key(key));
            assert(records@[key]@ == collected(entries@)[key]@);
            configs.push(value.clone());
            at += 1;
        }
        proof {
            records.lemma_keys();
            let keys = records.keys();
            assert forall|key: Seq<u8>| collected(entries@).contains_key(key) <==> keys.contains(
                key,
            ) by {
                assert(collected(entries@).contains_key(key) == records@.dom().contains(key));
            }
            assert(listed_by_key(collected(entries@), keys, configs@));
        }
        configs
    }
}

/// The stage that a build is at after a sequence of events, and the actions
/// that were asked for on the way, one for each event.
pub open spec fn build_run(config: FederationConfigView, state: BuildState, events: Seq<BuildEvent>) -> (
    BuildState,
    Seq<BuildActionView>,
)
    decreases events.len(),
{
    if events.len() == 0 {
        (state, Seq::empty())
    } else {
        let (before, actions) = build_run(config, state, events.drop_last());
        let (after, action) = build_step(config, before, events.last());
        (after, actions.push(action))
    }
}

/// Whether the events report that `secret` was generated.
pub open spec fn was_generated(events: Seq<BuildEvent>, secret: ClientSecret) -> bool {
    exists|i: int| 0 <= i < events.len() && #[trigger] events[i] == BuildEvent::SecretGenerated(secret)
}

/// Whether the events report that `secret` is in the storage: it was loaded
/// from there, or it was generated and a secret was reported stored after
/// that.
pub open spec fn is_stored(events: Seq<BuildEvent>, secret: ClientSecret) -> bool {
    ||| exists|i: int| 0 <= i < events.len() && #[trigger] events[i] == BuildEvent::SecretLoaded(secret)
    ||| exists|i: int, j: int|
        0 <= i < j < events.len() && #[trigger] events[i] == BuildEvent::SecretGenerated(secret)
            && (#[trigger] events[j]) is SecretStored
}

/// What was reported stays reported when more happens.
proof fn lemma_reports_last(events: Seq<BuildEvent>, secret: ClientSecret)
    requires
        events.len() > 0,
    ensures
        was_generated(events.drop_last(), secret) ==> was_generated(events, secret),
        is_stored(events.drop_last(), secret) ==> is_stored(events, secret),
{
    let shorter = events.drop_last();
    if was_generated(shorter, secret) {
        let i = choose|i: int|
            0 <= i < shorter.len() && #[trigger] shorter[i] == BuildEvent::SecretGenerated(secret);
        assert(events[i] == shorter[i]);
    }
    if is_stored(shorter, secret) {
        if exists|i: int|
            0 <= i < shorter.len() && #[trigger] shorter[i] == BuildEvent::SecretLoaded(secret) {
            let i = choose|i: int|
                0 <= i < shorter.len() && #[trigger] shorter[i] == BuildEvent::SecretLoaded(secret);
            assert(events[i] == shorter[i]);
        } else {
            let (i, j) = choose|i: int, j: int|
                0 <= i < j < shorter.len() && #[trigger] shorter[i] == BuildEvent::SecretGenerated(
                    secret,
                ) && (#[trigger] shorter[j]) is SecretStored;
            assert(events[i] == shorter[i]);
            assert(events[j] == shorter[j]);
        }
    }
}

/// Whether a build at `state` holds only a secret that the events account
/// for: one that is being stored was generated, and one that is in use is
/// in the storage.
pub open spec fn secret_accounted_for(state: BuildState, events: Seq<BuildEvent>) -> bool {
    match state {
        BuildState::StoringSecret { secret } => was_generated(events, secret),
        BuildState::CheckingConfig { secret } => is_stored(events, secret),
        BuildState::FetchingInfo { secret } => is_stored(events, secret),
        _ => true,
    }
}

/// A build that begins at `Start` never holds a secret that the events do
/// not account for.
pub proof fn lemma_secret_is_accounted_for(config: FederationConfigView, events: Seq<BuildEvent>)
    ensures
        secret_accounted_for(build_run(config, BuildState::Start, events).0, events),
    decreases events.len(),
{
    if events.len() > 0 {
        let shorter = events.drop_last();
        lemma_secret_is_accounted_for(config, shorter);
        let (before, _) = build_run(config, BuildState::Start, shorter);
        let (after, _) = build_step(config, before, events.last());
        let last = events.len() - 1;
        match after {
            BuildState::StoringSecret { secret } => {
                if before == after {
                    lemma_reports_last(events, secret);
                } else {
                    assert(events[last] == BuildEvent::SecretGenerated(secret));
                }
            },
            BuildState::CheckingConfig { secret } => {
                if before == after {
                    lemma_reports_last(events, secret);
                } else if before is LoadingSecret {
                    assert(events[last] == BuildEvent::SecretLoaded(secret));
                } else {
                    assert(before == BuildState::StoringSecret { secret });
                    let i = choose|i: int|
                        0 <= i < shorter.len() && #[trigger] shorter[i]
                            == BuildEvent::SecretGenerated(secret);
                    assert(events[i] == shorter[i]);
                    assert(events[last] is SecretStored);
                }
            },
            BuildState::FetchingInfo { secret } => {
                lemma_reports_last(events, secret);
            },
            _ => {},
        }
    }
}

/// The action asked for at an event is the one that the step from the
/// stage before that event gives.
proof fn lemma_action_at(
    config: FederationConfigView,
    state: BuildState,
    events: Seq<BuildEvent>,
    at: int,
)
    requires
        0 <= at < events.len(),
    ensures
        build_run(config, state, events).1.len() == events.len(),
        build_run(config, state, events).1[at] == build_step(
            config,
            build_run(config, state, events.subrange(0, at)).0,
            events[at],
        ).1,
    decreases events.len(),
{
    let shorter = events.drop_last();
    lemma_run_length(config, state, shorter);
    if at == events.len() - 1 {
        assert(shorter =~= events.subrange(0, at));
    } else {
        lemma_action_at(config, state, shorter, at);
        assert(shorter.subrange(0, at) =~= events.subrange(0, at));
        assert(shorter[at] == events[at]);
    }
}

/// A run asks for one action for each event.
proof fn lemma_run_length(config: FederationConfigView, state: BuildState, events: Seq<BuildEvent>)
    ensures
        build_run(config, state, events).1.len() == events.len(),
    decreases events.len(),
{
    if events.len() > 0 {
        lemma_run_length(config, state, events.drop_last());
    }
}

/// Whatever happens in a build, a client is put together only with a
/// secret that is in the storage by then: one that was loaded from it, or
/// one that was generated and reported stored before.
pub proof fn lemma_assembled_secret_is_stored(
    config: FederationConfigView,
    events: Seq<BuildEvent>,
    at: int,
)
    requires
        0 <= at < events.len(),
        build_run(config, BuildState::Start, events).1[at] is Assemble,
    ensures
        is_stored(
            events.subrange(0, at),
            build_run(config, BuildState::Start, events).1[at]->Assemble_secret,
        ),
{
    lemma_action_at(config, BuildState::Start, events, at);
    lemma_secret_is_accounted_for(config, events.subrange(0, at));
}

/// A load that fails ends the build: no secret is generated, and nothing
/// is asked to be stored in the place of what the storage holds.
pub proof fn lemma_failed_load_ends_the_build(
    config: FederationConfigView,
    reason: String,
    later: Seq<BuildEvent>,
)
    ensures
        build_step(config, BuildState::LoadingSecret, BuildEvent::SecretLoadFailed(reason)) == (
            BuildState::Failed,
            BuildActionView::Abort(build_failure(reason@)),
        ),
        build_run(config, BuildState::Failed, later).0 == BuildState::Failed,
        forall|i: int|
            0 <= i < later.len() ==> #[trigger] build_run(config, BuildState::Failed, later).1[i]
                == BuildActionView::Ignore,
    decreases later.len(),
{
    lemma_run_length(config, BuildState::Failed, later);
    if later.len() > 0 {
        lemma_failed_load_ends_the_build(config, reason, later.drop_last());
        lemma_run_length(config, BuildState::Failed, later.drop_last());
        let (before, actions) = build_run(config, BuildState::Failed, later.drop_last());
        let run = build_run(config, BuildState::Failed, later).1;
        assert forall|i: int| 0 <= i < later.len() implies #[trigger] run[i]
            == BuildActionView::Ignore by {
            if i < later.len() - 1 {
                assert(run[i] == actions[i]);
            }
        }
    }
}

/// A secret is generated only when the storage was found to hold none.
pub proof fn lemma_generated_only_when_missing(
    config: FederationConfigView,
    state: BuildState,
    event: BuildEvent,
)
    requires
        build_step(config, state, event).1 is GenerateSecret,
    ensures
        state is LoadingSecret,
        event is SecretMissing,
{
}

/// A failure after the secret was stored ends the build and asks for
/// nothing more: the secret stays where it is.
pub proof fn lemma_failure_keeps_secret(
    config: FederationConfigView,
    secret: ClientSecret,
    reason: String,
)
    ensures
        build_step(
            config,
            BuildState::FetchingInfo { secret },
            BuildEvent::InfoFetchFailed(reason),
        ) == (BuildState::Failed, BuildActionView::Abort(build_failure(reason@))),
        build_step(config, BuildState::Assembling, BuildEvent::AssembleFailed(reason)) == (
            BuildState::Failed,
            BuildActionView::Abort(build_failure(reason@)),
        ),
{
}

/// Every key that was read from the store has a record in what is loaded.
pub proof fn lemma_read_key_is_collected(entries: Seq<(FederationIdKey, FederationConfig)>, i: int)
    requires
        0 <= i < entries.len(),
    ensures
        collected(entries).contains_key(entries[i].0.id@),
    decreases entries.len(),
{
    if i < entries.len() - 1 {
        lemma_read_key_is_collected(entries.drop_last(), i);
        assert(entries.drop_last()[i] == entries[i]);
    }
}

} // verus!
