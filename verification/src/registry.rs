//! The registry of federation clients: one live client per federation,
//! found by the federation's identifier.
//!
//! The registry is plain data. Whoever shares it between requests puts it
//! behind a lock and holds the lock for one call at a time: every operation
//! here is a bounded piece of work on the map, and none waits for a build,
//! the store or the network.
//!
//! Registration is a protocol of several steps, because a client is built
//! and its record is stored outside the registry. [`MultiMint::register_new`]
//! takes what has happened and says what is to be done next. It admits one
//! registration per federation at a time, and it publishes a client only
//! after the record has been stored.

use crate::client::LocalClientBuilder;
use crate::db::{FederationConfig, FederationConfigView};
use crate::error::{AppError, AppErrorView, ErrorKind};
use crate::federation::{
    id_lt, parse_federation_id, FederationId, FederationIdPrefix, InviteCode, InviteCodeView,
};
use crate::id_map::{keys_ascending, IdMap};
use crate::types::{describes, ClientReading, InfoResponse};
use std::path::PathBuf;
use std::sync::Arc;
use vstd::prelude::*;

verus! {

/// Another pointer to the client that `client` points to. This is
/// `Arc::clone` of the standard library, of which the contract says what its
/// documentation says: the new pointer is to the same value.
#[verifier::external_body]
fn share<H>(client: &Arc<H>) -> (copy: Arc<H>)
    ensures
        copy == *client,
{
    Arc::clone(client)
}

/// A registration that has been admitted and is not finished.
pub struct Pending {
    pub config: FederationConfig,
    pub saving: bool,
}

/// What a [`Pending`] registration says: the record that is being
/// registered, and whether its client has been built and the record is
/// being stored.
pub struct PendingView {
    pub config: FederationConfigView,
    pub saving: bool,
}

impl View for Pending {
    type V = PendingView;

    open spec fn view(&self) -> PendingView {
        PendingView { config: self.config@, saving: self.saving }
    }
}

/// What has happened in a registration.
pub enum RegistrationEvent<H> {
    /// A caller asks to register the federation of this invite code.
    Requested { invite_code: InviteCode, set_default: bool },
    /// The client of this federation has been built.
    Built { federation_id: FederationId },
    /// No client could be built for this federation.
    BuildFailed { federation_id: FederationId, reason: String },
    /// The record of this federation has been stored; this is its client.
    Saved { federation_id: FederationId, client: Arc<H> },
    /// The record of this federation could not be stored.
    SaveFailed { federation_id: FederationId, reason: String },
}

/// What is to be done next in a registration.
#[derive(Debug, PartialEq, Eq)]
pub enum RegistrationAction {
    /// Nothing: the federation is registered under this identifier.
    Registered(FederationId),
    /// Another caller is registering this federation: wait and ask again.
    Wait(FederationId),
    /// Build a client for this record.
    Build(FederationConfig),
    /// Store this record.
    Save(FederationConfig),
    /// Nothing: the registration has failed with this error.
    Failed(AppError),
    /// Nothing: the event belongs to no registration that is under way.
    Ignored,
}

/// What a [`RegistrationAction`] says.
pub enum RegistrationActionView {
    Registered(Seq<u8>),
    Wait(Seq<u8>),
    Build(FederationConfigView),
    Save(FederationConfigView),
    Failed(AppErrorView),
    Ignored,
}

impl View for RegistrationAction {
    type V = RegistrationActionView;

    open spec fn view(&self) -> RegistrationActionView {
        match self {
            RegistrationAction::Registered(id) => RegistrationActionView::Registered(id@),
            RegistrationAction::Wait(id) => RegistrationActionView::Wait(id@),
            RegistrationAction::Build(config) => RegistrationActionView::Build(config@),
            RegistrationAction::Save(config) => RegistrationActionView::Save(config@),
            RegistrationAction::Failed(error) => RegistrationActionView::Failed(error@),
            RegistrationAction::Ignored => RegistrationActionView::Ignored,
        }
    }
}

/// A registration record read from the store at startup, with the client
/// that was built for it, or without one where the build failed.
pub struct LoadedClient<H> {
    pub config: FederationConfig,
    pub client: Option<Arc<H>>,
}

/// What a registry holds: the live clients by federation, the
/// registrations under way by federation, and the default federation.
pub struct MultiMintView<H> {
    pub clients: Map<Seq<u8>, Arc<H>>,
    pub pending: Map<Seq<u8>, PendingView>,
    pub default_id: Option<Seq<u8>>,
}

/// The registry that holds nothing.
pub open spec fn empty_registry<H>() -> MultiMintView<H> {
    MultiMintView { clients: Map::empty(), pending: Map::empty(), default_id: None }
}

/// The registry after a caller has asked to register `invite_code`, and
/// what the caller is to do. A registered federation is answered with its
/// identifier, one whose registration is under way with `Wait`; in both
/// cases nothing changes. Otherwise the registration is admitted.
pub open spec fn after_request<H>(
    v: MultiMintView<H>,
    invite_code: InviteCodeView,
    set_default: bool,
) -> (MultiMintView<H>, RegistrationActionView) {
    let id = invite_code.federation_id;
    let config = FederationConfigView { invite_code, is_default: set_default };
    if v.clients.contains_key(id) {
        (v, RegistrationActionView::Registered(id))
    } else if v.pending.contains_key(id) {
        (v, RegistrationActionView::Wait(id))
    } else {
        (
            MultiMintView {
                pending: v.pending.insert(id, PendingView { config, saving: false }),
                ..v
            },
            RegistrationActionView::Build(config),
        )
    }
}

/// The registry after the client of `id` has been built: the admitted
/// record is to be stored.
pub open spec fn after_built<H>(v: MultiMintView<H>, id: Seq<u8>) -> (
    MultiMintView<H>,
    RegistrationActionView,
) {
    if v.pending.contains_key(id) && !v.pending[id].saving {
        (
            MultiMintView {
                pending: v.pending.insert(
                    id,
                    PendingView { config: v.pending[id].config, saving: true },
                ),
                ..v
            },
            RegistrationActionView::Save(v.pending[id].config),
        )
    } else {
        (v, RegistrationActionView::Ignored)
    }
}

/// The registry after the record of `id` has been stored: the client is
/// published, and made the default where the record says so.
pub open spec fn after_saved<H>(v: MultiMintView<H>, id: Seq<u8>, client: Arc<H>) -> (
    MultiMintView<H>,
    RegistrationActionView,
) {
    if v.pending.contains_key(id) && v.pending[id].saving {
        (
            MultiMintView {
                clients: v.clients.insert(id, client),
                pending: v.pending.remove(id),
                default_id: if v.pending[id].config.is_default {
                    Some(id)
                } else {
                    v.default_id
                },
            },
            RegistrationActionView::Registered(id),
        )
    } else {
        (v, RegistrationActionView::Ignored)
    }
}

/// The registry after a step of the registration of `id` has failed: the
/// registration is given up, where it was at that step.
pub open spec fn after_failure<H>(
    v: MultiMintView<H>,
    id: Seq<u8>,
    saving: bool,
    reason: Seq<char>,
) -> (MultiMintView<H>, RegistrationActionView) {
    if v.pending.contains_key(id) && v.pending[id].saving == saving {
        (
            MultiMintView { pending: v.pending.remove(id), ..v },
            RegistrationActionView::Failed(
                AppErrorView {
                    kind: if saving {
                        ErrorKind::Store
                    } else {
                        ErrorKind::Build
                    },
                    message: reason,
                },
            ),
        )
    } else {
        (v, RegistrationActionView::Ignored)
    }
}

/// The registry after `event`, and what is to be done next.
pub open spec fn register_step<H>(v: MultiMintView<H>, event: RegistrationEvent<H>) -> (
    MultiMintView<H>,
    RegistrationActionView,
) {
    match event {
        RegistrationEvent::Requested { invite_code, set_default } => after_request(
            v,
            invite_code@,
            set_default,
        ),
        RegistrationEvent::Built { federation_id } => after_built(v, federation_id@),
        RegistrationEvent::BuildFailed { federation_id, reason } => after_failure(
            v,
            federation_id@,
            false,
            reason@,
        ),
        RegistrationEvent::Saved { federation_id, client } => after_saved(
            v,
            federation_id@,
            client,
        ),
        RegistrationEvent::SaveFailed { federation_id, reason } => after_failure(
            v,
            federation_id@,
            true,
            reason@,
        ),
    }
}

/// The registry after one record read at startup: a client that was built
/// is put under its federation, and made the default where the record says
/// so; a record without a client changes nothing.
pub open spec fn after_load_one<H>(v: MultiMintView<H>, loaded: LoadedClient<H>) -> MultiMintView<
    H,
> {
    let id = loaded.config@.invite_code.federation_id;
    match loaded.client {
        Some(client) => MultiMintView {
            clients: v.clients.insert(id, client),
            default_id: if loaded.config.is_default {
                Some(id)
            } else {
                v.default_id
            },
            ..v
        },
        None => v,
    }
}

/// The registry after the records read at startup, taken in their order.
pub open spec fn after_load<H>(v: MultiMintView<H>, loaded: Seq<LoadedClient<H>>) -> MultiMintView<
    H,
>
    decreases loaded.len(),
{
    if loaded.len() == 0 {
        v
    } else {
        after_load_one(after_load(v, loaded.drop_last()), loaded.last())
    }
}

/// The federations, in the order of `loaded`, for which no client was built.
pub open spec fn skipped_ids<H>(loaded: Seq<LoadedClient<H>>) -> Seq<Seq<u8>>
    decreases loaded.len(),
{
    if loaded.len() == 0 {
        Seq::empty()
    } else if loaded.last().client is None {
        skipped_ids(loaded.drop_last()).push(loaded.last().config@.invite_code.federation_id)
    } else {
        skipped_ids(loaded.drop_last())
    }
}

/// The value under `id`, if the map holds that key.
pub open spec fn lookup<V>(m: Map<Seq<u8>, V>, id: Seq<u8>) -> Option<V> {
    if m.contains_key(id) {
        Some(m[id])
    } else {
        None
    }
}

/// Whether `id` begins with the four bytes of `prefix`.
pub open spec fn has_prefix(id: Seq<u8>, prefix: Seq<u8>) -> bool {
    id.len() >= 4 && id.subrange(0, 4) == prefix
}

/// Whether `id` is the first key of `m`, in byte-wise order, that begins
/// with `prefix`.
pub open spec fn first_with_prefix<V>(m: Map<Seq<u8>, V>, prefix: Seq<u8>, id: Seq<u8>) -> bool {
    &&& m.contains_key(id)
    &&& has_prefix(id, prefix)
    &&& forall|other: Seq<u8>|
        m.contains_key(other) && #[trigger] has_prefix(other, prefix) ==> other == id || id_lt(
            id,
            other,
        )
}

/// The views of a sequence of identifiers.
pub open spec fn id_views(ids: Seq<FederationId>) -> Seq<Seq<u8>> {
    Seq::new(ids.len(), |i: int| ids[i]@)
}

/// What the registrations under way say, by federation.
pub open spec fn pending_views(m: Map<Seq<u8>, Pending>) -> Map<Seq<u8>, PendingView> {
    Map::new(|k: Seq<u8>| m.contains_key(k), |k: Seq<u8>| m[k]@)
}

/// Whether every registration under way is filed under the federation that
/// its record names.
pub open spec fn filed_by_federation<H>(v: MultiMintView<H>) -> bool {
    forall|id: Seq<u8>|
        v.pending.contains_key(id) ==> (#[trigger] v.pending[id]).config.invite_code.federation_id
            == id
}

/// The registry of federation clients.
pub struct MultiMint<H> {
    client_builder: LocalClientBuilder,
    clients: IdMap<Arc<H>>,
    pending: IdMap<Pending>,
    default_id: Option<FederationId>,
}

impl<H> View for MultiMint<H> {
    type V = MultiMintView<H>;

    closed spec fn view(&self) -> MultiMintView<H> {
        MultiMintView {
            clients: self.clients@,
            pending: pending_views(self.pending@),
            default_id: match self.default_id {
                Some(id) => Some(id@),
                None => None,
            },
        }
    }
}

impl<H> MultiMint<H> {
    /// The representation is sound, and every registration under way is
    /// filed under the federation that its record names.
    pub closed spec fn wf(&self) -> bool {
        self.clients.wf() && self.pending.wf() && filed_by_federation(self@)
    }

    /// In a sound registry every registration under way is filed under the
    /// federation that its record names.
    pub proof fn lemma_filed_by_federation(&self)
        requires
            self.wf(),
        ensures
            filed_by_federation(self@),
    {
    }

    /// The builder that the registry was made with.
    pub closed spec fn builder(&self) -> LocalClientBuilder {
        self.client_builder
    }

    /// The registered federations in the order in which the registry lists
    /// them. [`MultiMint::lemma_ordered_ids`] says which order that is.
    pub closed spec fn ordered_ids(&self) -> Seq<Seq<u8>> {
        self.clients.keys()
    }

    /// The registry lists its federations in strictly ascending byte-wise
    /// order, each once, and lists exactly the federations that have a
    /// client.
    pub proof fn lemma_ordered_ids(&self)
        requires
            self.wf(),
        ensures
            keys_ascending(self.ordered_ids()),
            self.ordered_ids().no_duplicates(),
            forall|id: Seq<u8>| self@.clients.contains_key(id) <==> self.ordered_ids().contains(id),
    {
        self.clients.lemma_keys();
    }

    /// An empty registry whose clients will be stored under `work_dir`.
    pub fn new(work_dir: PathBuf) -> (registry: Self)
        ensures
            registry.wf(),
            registry@ == empty_registry::<H>(),
            registry.builder().dir() == work_dir,
            registry.ordered_ids().len() == 0,
    {
        let registry = MultiMint {
            client_builder: LocalClientBuilder::new(work_dir),
            clients: IdMap::new(),
            pending: IdMap::new(),
            default_id: None,
        };
        assert(registry@.pending =~= Map::<Seq<u8>, PendingView>::empty());
        registry
    }

    /// The builder that the registry was made with.
    pub fn client_builder(&self) -> (builder: &LocalClientBuilder)
        ensures
            *builder == self.builder(),
    {
        &self.client_builder
    }

    /// Takes in the records read from the store at startup, each with the
    /// client that was built for it. A record whose build failed leaves its
    /// federation out of the registry; the identifiers of those are handed
    /// back, for the caller to report.
    pub fn load_clients(&mut self, loaded: &Vec<LoadedClient<H>>) -> (skipped: Vec<FederationId>)
        requires
            old(self).wf(),
        ensures
            final(self).wf(),
            final(self)@ == after_load(old(self)@, loaded@),
            final(self).builder() == old(self).builder(),
            id_views(skipped@) == skipped_ids(loaded@),
    {
        let mut skipped: Vec<FederationId> = Vec::new();
        let mut i: usize = 0;
        assert(loaded@.subrange(0, 0) =~= Seq::<LoadedClient<H>>::empty());
        assert(id_views(skipped@) =~= Seq::<Seq<u8>>::empty());
        while i < loaded.len()
            invariant
                i <= loaded@.len(),
                self.wf(),
                self.builder() == old(self).builder(),
                self@ == after_load(old(self)@, loaded@.subrange(0, i as int)),
                id_views(skipped@) == skipped_ids(loaded@.subrange(0, i as int)),
            decreases loaded@.len() - i,
        {
            let entry = &loaded[i];
            let id = entry.config.federation_id();
            let ghost before = self@;
            let ghost seen = id_views(skipped@);
            proof {
                let next = loaded@.subrange(0, i + 1);
                assert(next.drop_last() =~= loaded@.subrange(0, i as int));
                assert(next.last() == loaded@[i as int]);
            }
            match &entry.client {
                Some(client) => {
                    self.clients.insert(id, share(client));
                    if entry.config.is_default {
                        self.default_id = Some(id);
                    }
                },
                None => {
                    skipped.push(id);
                    assert(id_views(skipped@) =~= seen.push(id@));
                },
            }
            assert(self@ == after_load_one(before, loaded@[i as int]));
            i += 1;
        }
        assert(loaded@.subrange(0, i as int) =~= loaded@);
        skipped
    }

    /// Takes one event of a registration and says what is to be done next.
    ///
    /// A request for a federation that has a client is answered with its
    /// identifier and changes nothing. A request for a federation whose
    /// registration is under way is told to wait. Any other request is
    /// admitted, and its caller is told to build the client; when that is
    /// reported, to store the record; and when that is reported, the client
    /// is published. A failure at either step ends the registration. An
    /// event that fits no admitted registration is ignored.
    pub fn register_new(&mut self, event: RegistrationEvent<H>) -> (action: RegistrationAction)
        requires
            old(self).wf(),
        ensures
            final(self).wf(),
            final(self).builder() == old(self).builder(),
            (final(self)@, action@) == register_step(old(self)@, event),
    {
        match event {
            RegistrationEvent::Requested { invite_code, set_default } => {
                let id = invite_code.federation_id();
                if self.clients.contains(&id) {
                    RegistrationAction::Registered(id)
                } else if self.pending.contains(&id) {
                    RegistrationAction::Wait(id)
                } else {
                    let config = FederationConfig { invite_code, is_default: set_default };
                    let for_caller = config.clone();
                    self.pending.insert(id, Pending { config, saving: false });
                    assert(self@.pending =~= old(self)@.pending.insert(
                        id@,
                        PendingView { config: for_caller@, saving: false },
                    ));
                    RegistrationAction::Build(for_caller)
                }
            },
            RegistrationEvent::Built { federation_id } => {
                match self.admitted(&federation_id, false) {
                    Some(config) => {
                        let for_caller = config.clone();
                        self.pending.insert(federation_id, Pending { config, saving: true });
                        assert(self@.pending =~= old(self)@.pending.insert(
                            federation_id@,
                            PendingView { config: for_caller@, saving: true },
                        ));
                        RegistrationAction::Save(for_caller)
                    },
                    None => RegistrationAction::Ignored,
                }
            },
            RegistrationEvent::BuildFailed { federation_id, reason } => {
                self.give_up(&federation_id, false, reason)
            },
            RegistrationEvent::Saved { federation_id, client } => {
                match self.admitted(&federation_id, true) {
                    Some(config) => {
                        self.pending.remove(&federation_id);
                        self.clients.insert(federation_id, client);
                        if config.is_default {
                            self.default_id = Some(federation_id);
                        }
                        assert(self@.pending =~= old(self)@.pending.remove(federation_id@));
                        RegistrationAction::Registered(federation_id)
                    },
                    None => RegistrationAction::Ignored,
                }
            },
            RegistrationEvent::SaveFailed { federation_id, reason } => {
                self.give_up(&federation_id, true, reason)
            },
        }
    }

    /// The record of the registration of `id` that is under way at the given
    /// step, if there is one.
    fn admitted(&self, id: &FederationId, saving: bool) -> (r: Option<FederationConfig>)
        requires
            self.wf(),
        ensures
            r is Some <==> self@.pending.contains_key(id@) && self@.pending[id@].saving == saving,
            r matches Some(config) ==> config@ == self@.pending[id@].config,
    {
        match self.pending.get(id) {
            Some(pending) => {
                if pending.saving == saving {
                    Some(pending.config.clone())
                } else {
                    None
                }
            },
            None => None,
        }
    }

    /// Ends the registration of `id` that is under way at the given step.
    fn give_up(&mut self, id: &FederationId, saving: bool, reason: String) -> (action:
        RegistrationAction)
        requires
            old(self).wf(),
        ensures
            final(self).wf(),
            final(self).builder() == old(self).builder(),
            (final(self)@, action@) == after_failure(old(self)@, id@, saving, reason@),
    {
        match self.admitted(id, saving) {
            Some(_) => {
                self.pending.remove(id);
                assert(self@.pending =~= old(self)@.pending.remove(id@));
                let kind = if saving {
                    ErrorKind::Store
                } else {
                    ErrorKind::Build
                };
                RegistrationAction::Failed(AppError::new(kind, reason))
            },
            None => RegistrationAction::Ignored,
        }
    }

    /// The clients of all registered federations, in the order of
    /// [`MultiMint::ids`].
    pub fn all(&self) -> (clients: Vec<Arc<H>>)
        requires
            self.wf(),
        ensures
            clients@.len() == self.ordered_ids().len(),
            forall|i: int|
                0 <= i < clients@.len() ==> lookup(self@.clients, self.ordered_ids()[i]) == Some(
                    #[trigger] clients@[i],
                ),
    {
        let mut clients: Vec<Arc<H>> = Vec::new();
        let n = self.clients.len();
        let mut i: usize = 0;
        while i < n
            invariant
                self.wf(),
                n == self.ordered_ids().len(),
                i <= n,
                clients@.len() == i,
                forall|j: int|
                    0 <= j < i ==> lookup(self@.clients, self.ordered_ids()[j]) == Some(
                        #[trigger] clients@[j],
                    ),
            decreases n - i,
        {
            let client = share(self.clients.value_at(i));
            clients.push(client);
            i += 1;
        }
        clients
    }

    /// The identifiers of all registered federations, in ascending
    /// byte-wise order.
    pub fn ids(&self) -> (ids: Vec<FederationId>)
        requires
            self.wf(),
        ensures
            id_views(ids@) == self.ordered_ids(),
            keys_ascending(id_views(ids@)),
            forall|id: Seq<u8>| self@.clients.contains_key(id) <==> id_views(ids@).contains(id),
    {
        let mut ids: Vec<FederationId> = Vec::new();
        let n = self.clients.len();
        let mut i: usize = 0;
        while i < n
            invariant
                n == self.ordered_ids().len(),
                i <= n,
                ids@.len() == i,
                forall|j: int| 0 <= j < i ==> (#[trigger] ids@[j])@ == self.ordered_ids()[j],
            decreases n - i,
        {
            ids.push(self.clients.key_at(i));
            i += 1;
        }
        proof {
            assert(id_views(ids@) =~= self.ordered_ids());
            self.lemma_ordered_ids();
        }
        ids
    }

    /// The client of the federation `federation_id`, if it is registered.
    pub fn get(&self, federation_id: &FederationId) -> (client: Option<Arc<H>>)
        requires
            self.wf(),
        ensures
            client == lookup(self@.clients, federation_id@),
    {
        match self.clients.get(federation_id) {
            Some(client) => Some(share(client)),
            None => None,
        }
    }

    /// The client of the federation whose identifier `federation_id_str`
    /// stands for, if the text is an identifier and that federation is
    /// registered.
    pub fn get_by_str(&self, federation_id_str: &str) -> (client: Option<Arc<H>>)
        requires
            self.wf(),
        ensures
            client == match parse_federation_id(federation_id_str@) {
                Some(id) => lookup(self@.clients, id),
                None => None,
            },
    {
        match FederationId::from_str(federation_id_str) {
            Some(federation_id) => self.get(&federation_id),
            None => None,
        }
    }

    /// The client of the first registered federation, in ascending order,
    /// whose identifier begins with `federation_id_prefix`.
    pub fn get_by_prefix(&self, federation_id_prefix: &FederationIdPrefix) -> (client: Option<
        Arc<H>,
    >)
        requires
            self.wf(),
        ensures
            client matches Some(found) ==> exists|id: Seq<u8>|
                #[trigger] first_with_prefix(self@.clients, federation_id_prefix@, id) && found
                    == self@.clients[id],
            client is None ==> forall|id: Seq<u8>|
                self@.clients.contains_key(id) ==> !#[trigger] has_prefix(
                    id,
                    federation_id_prefix@,
                ),
    {
        let n = self.clients.len();
        let mut i: usize = 0;
        proof {
            self.lemma_ordered_ids();
            self.clients.lemma_keys();
        }
        while i < n
            invariant
                self.wf(),
                n == self.ordered_ids().len(),
                i <= n,
                forall|j: int|
                    0 <= j < i ==> !has_prefix(
                        #[trigger] self.ordered_ids()[j],
                        federation_id_prefix@,
                    ),
            decreases n - i,
        {
            let id = self.clients.key_at(i);
            if id.to_prefix().same(federation_id_prefix) {
                let client = share(self.clients.value_at(i));
                proof {
                    self.lemma_ordered_ids();
                    let ids = self.ordered_ids();
                    assert forall|other: Seq<u8>|
                        self@.clients.contains_key(other) && #[trigger] has_prefix(
                            other,
                            federation_id_prefix@,
                        ) implies other == id@ || id_lt(id@, other) by {
                        assert(ids.contains(other));
                        let j = choose|j: int| 0 <= j < ids.len() && ids[j] == other;
                        if j < i {
                            assert(!has_prefix(ids[j], federation_id_prefix@));
                        } else if j > i {
                            assert(id_lt(ids[i as int], ids[j]));
                        }
                    }
                    assert(first_with_prefix(self@.clients, federation_id_prefix@, id@));
                }
                return Some(client);
            }
            i += 1;
        }
        proof {
            self.lemma_ordered_ids();
            let ids = self.ordered_ids();
            assert forall|id: Seq<u8>| self@.clients.contains_key(id) implies !#[trigger] has_prefix(
                id,
                federation_id_prefix@,
            ) by {
                assert(ids.contains(id));
                let j = choose|j: int| 0 <= j < ids.len() && ids[j] == id;
                assert(!has_prefix(ids[j], federation_id_prefix@));
            }
        }
        None
    }

    /// The client of the default federation, if one is set and registered.
    pub fn get_default(&self) -> (client: Option<Arc<H>>)
        requires
            self.wf(),
        ensures
            client == match self@.default_id {
                Some(id) => lookup(self@.clients, id),
                None => None,
            },
    {
        match &self.default_id {
            Some(id) => self.get(id),
            None => None,
        }
    }

    /// Puts `new_client` in the place of the client of `federation_id`, or
    /// registers it where the federation had none.
    pub fn update(&mut self, federation_id: &FederationId, new_client: Arc<H>)
        requires
            old(self).wf(),
        ensures
            final(self).wf(),
            final(self).builder() == old(self).builder(),
            final(self)@ == (MultiMintView {
                clients: old(self)@.clients.insert(federation_id@, new_client),
                ..old(self)@
            }),
    {
        self.clients.insert(*federation_id, new_client);
    }

    /// Takes the federation `federation_id` out of the registry. Where it
    /// was the default federation, there is no default afterwards.
    pub fn remove(&mut self, federation_id: &FederationId)
        requires
            old(self).wf(),
        ensures
            final(self).wf(),
            final(self).builder() == old(self).builder(),
            final(self)@ == (MultiMintView {
                clients: old(self)@.clients.remove(federation_id@),
                default_id: if old(self)@.default_id == Some(federation_id@) {
                    None
                } else {
                    old(self)@.default_id
                },
                ..old(self)@
            }),
    {
        self.clients.remove(federation_id);
        let was_default = match &self.default_id {
            Some(id) => id.same(federation_id),
            None => false,
        };
        if was_default {
            self.default_id = None;
        }
    }

    /// Registers `client` under the federation it belongs to, as
    /// [`MultiMint::update`] does.
    pub fn load_fedimint_client(&mut self, federation_id: FederationId, client: Arc<H>)
        requires
            old(self).wf(),
        ensures
            final(self).wf(),
            final(self).builder() == old(self).builder(),
            final(self)@ == (MultiMintView {
                clients: old(self)@.clients.insert(federation_id@, client),
                ..old(self)@
            }),
    {
        self.update(&federation_id, client);
    }

    /// Sets beside each registered federation, in the order of
    /// [`MultiMint::ids`], the value that was read from its client: the
    /// first value belongs to the first federation, and so on. `None`
    /// unless there is one value for each federation.
    pub fn with_ids<V>(&self, values: Vec<V>) -> (r: Option<Vec<(FederationId, V)>>)
        requires
            self.wf(),
        ensures
            r is Some <==> values@.len() == self.ordered_ids().len(),
            r matches Some(pairs) ==> pairs@.len() == values@.len() && forall|i: int|
                0 <= i < pairs@.len() ==> (#[trigger] pairs@[i]).0@ == self.ordered_ids()[i]
                    && pairs@[i].1 == values@[i],
    {
        let n = self.clients.len();
        if values.len() != n {
            return None;
        }
        let ghost given = values@;
        let mut values = values;
        let mut pairs: Vec<(FederationId, V)> = Vec::new();
        let mut i: usize = n;
        assert(values@ =~= given.subrange(0, n as int));
        while i > 0
            invariant
                n == self.ordered_ids().len(),
                n == given.len(),
                i <= n,
                values@ == given.subrange(0, i as int),
                pairs@.len() == n - i,
                forall|j: int|
                    0 <= j < pairs@.len() ==> (#[trigger] pairs@[j]).0@ == self.ordered_ids()[i + j]
                        && pairs@[j].1 == given[i + j],
            decreases i,
        {
            i -= 1;
            let ghost before = pairs@;
            let value = values.pop().unwrap();
            let id = self.clients.key_at(i);
            pairs.insert(0, (id, value));
            assert(values@ =~= given.subrange(0, i as int));
            assert forall|j: int| 0 <= j < pairs@.len() implies (#[trigger] pairs@[j]).0@
                == self.ordered_ids()[i + j] && pairs@[j].1 == given[i + j] by {
                if j > 0 {
                    assert(pairs@[j] == before[j - 1]);
                }
            }
        }
        Some(pairs)
    }

    /// The configuration of each registered federation, from the
    /// configurations read from the clients in the order of
    /// [`MultiMint::all`].
    pub fn configs(&self, configs: Vec<String>) -> (r: Option<Vec<(FederationId, String)>>)
        requires
            self.wf(),
        ensures
            r is Some <==> configs@.len() == self.ordered_ids().len(),
            r matches Some(pairs) ==> pairs@.len() == configs@.len() && forall|i: int|
                0 <= i < pairs@.len() ==> (#[trigger] pairs@[i]).0@ == self.ordered_ids()[i]
                    && pairs@[i].1 == configs@[i],
    {
        self.with_ids(configs)
    }

    /// The balance held at each registered federation, in millisatoshi,
    /// from the balances read from the clients in the order of
    /// [`MultiMint::all`].
    pub fn ecash_balances(&self, balances_msat: Vec<u64>) -> (r: Option<Vec<(FederationId, u64)>>)
        requires
            self.wf(),
        ensures
            r is Some <==> balances_msat@.len() == self.ordered_ids().len(),
            r matches Some(pairs) ==> pairs@.len() == balances_msat@.len() && forall|i: int|
                0 <= i < pairs@.len() ==> (#[trigger] pairs@[i]).0@ == self.ordered_ids()[i]
                    && pairs@[i].1 == balances_msat@[i],
    {
        self.with_ids(balances_msat)
    }

    /// What the registry tells about each registered federation, from what
    /// was read from the clients in the order of [`MultiMint::all`]. `None`
    /// unless there is one reading for each federation.
    pub fn info(&self, readings: Vec<ClientReading>) -> (r: Option<Vec<InfoResponse>>)
        requires
            self.wf(),
        ensures
            r is Some <==> readings@.len() == self.ordered_ids().len(),
            r matches Some(infos) ==> infos@.len() == readings@.len() && forall|i: int|
                0 <= i < infos@.len() ==> describes(
                    #[trigger] infos@[i],
                    self.ordered_ids()[i],
                    readings@[i],
                ),
    {
        let n = self.clients.len();
        if readings.len() != n {
            return None;
        }
        let ghost given = readings@;
        let mut readings = readings;
        let mut infos: Vec<InfoResponse> = Vec::new();
        let mut i: usize = n;
        assert(readings@ =~= given.subrange(0, n as int));
        while i > 0
            invariant
                n == self.ordered_ids().len(),
                n == given.len(),
                i <= n,
                readings@ == given.subrange(0, i as int),
                infos@.len() == n - i,
                forall|j: int|
                    0 <= j < infos@.len() ==> describes(
                        #[trigger] infos@[j],
                        self.ordered_ids()[i + j],
                        given[i + j],
                    ),
            decreases i,
        {
            i -= 1;
            let ghost before = infos@;
            let reading = readings.pop().unwrap();
            let id = self.clients.key_at(i);
            infos.insert(0, InfoResponse::new(id, reading));
            assert(readings@ =~= given.subrange(0, i as int));
            assert forall|j: int| 0 <= j < infos@.len() implies describes(
                #[trigger] infos@[j],
                self.ordered_ids()[i + j],
                given[i + j],
            ) by {
                if j > 0 {
                    assert(infos@[j] == before[j - 1]);
                }
            }
        }
        Some(infos)
    }

    /// Whether the federation `federation_id` is registered.
    pub fn has(&self, federation_id: &FederationId) -> (r: bool)
        requires
            self.wf(),
        ensures
            r == self@.clients.contains_key(federation_id@),
    {
        self.clients.contains(federation_id)
    }

    /// Whether `federation_id_str` is the identifier of a registered
    /// federation.
    pub fn has_by_str(&self, federation_id_str: &str) -> (r: bool)
        requires
            self.wf(),
        ensures
            r == match parse_federation_id(federation_id_str@) {
                Some(id) => self@.clients.contains_key(id),
                None => false,
            },
    {
        match FederationId::from_str(federation_id_str) {
            Some(federation_id) => self.has(&federation_id),
            None => false,
        }
    }
}

/// Registering a federation twice gives the same identifier both times and
/// leaves one client for it: once the first registration has gone through
/// (or the federation had a client before), the second request is answered
/// with that identifier and changes nothing in the registry.
pub proof fn lemma_registration_is_idempotent<H>(
    v: MultiMintView<H>,
    invite_code: InviteCodeView,
    set_default: bool,
    client: Arc<H>,
    set_default_again: bool,
)
    requires
        !v.pending.contains_key(invite_code.federation_id),
    ensures
        ({
            let id = invite_code.federation_id;
            let (admitted, first) = after_request(v, invite_code, set_default);
            let registered = if first is Build {
                after_saved(after_built(admitted, id).0, id, client).0
            } else {
                admitted
            };
            &&& first is Build || first == RegistrationActionView::Registered(id)
            &&& registered.clients.contains_key(id)
            &&& after_request(registered, invite_code, set_default_again) == (
                registered,
                RegistrationActionView::Registered(id),
            )
        }),
{
    let id = invite_code.federation_id;
    let (admitted, first) = after_request(v, invite_code, set_default);
    if first is Build {
        assert(admitted.pending.contains_key(id));
        let (saving, _) = after_built(admitted, id);
        assert(saving.pending.contains_key(id));
    }
}

/// Two callers that register the same new federation at the same time end
/// with one stored record and one client. The first is admitted and told to
/// build. The second is told to wait, before and after the build, and
/// changes nothing, so nothing is built or stored for it. When the first
/// has stored the record, its client is published; the second, asking
/// again, is answered with the identifier. A client that the second caller
/// built all the same is not taken in.
pub proof fn lemma_one_registration_per_federation<H>(
    v: MultiMintView<H>,
    first_code: InviteCodeView,
    first_default: bool,
    second_code: InviteCodeView,
    second_default: bool,
    first_client: Arc<H>,
    second_client: Arc<H>,
)
    requires
        first_code.federation_id == second_code.federation_id,
        !v.clients.contains_key(first_code.federation_id),
        !v.pending.contains_key(first_code.federation_id),
    ensures
        ({
            let id = first_code.federation_id;
            let record = FederationConfigView { invite_code: first_code, is_default: first_default };
            let (building, to_first) = after_request(v, first_code, first_default);
            let (saving, to_first_built) = after_built(building, id);
            let (done, to_first_saved) = after_saved(saving, id, first_client);
            &&& to_first == RegistrationActionView::Build(record)
            &&& after_request(building, second_code, second_default) == (
                building,
                RegistrationActionView::Wait(id),
            )
            &&& to_first_built == RegistrationActionView::Save(record)
            &&& after_request(saving, second_code, second_default) == (
                saving,
                RegistrationActionView::Wait(id),
            )
            &&& after_built(saving, id) == (saving, RegistrationActionView::Ignored)
            &&& to_first_saved == RegistrationActionView::Registered(id)
            &&& done.clients == v.clients.insert(id, first_client)
            &&& !done.pending.contains_key(id)
            &&& after_request(done, second_code, second_default) == (
                done,
                RegistrationActionView::Registered(id),
            )
            &&& after_saved(done, id, second_client) == (done, RegistrationActionView::Ignored)
        }),
{
    let id = first_code.federation_id;
    let (building, _) = after_request(v, first_code, first_default);
    assert(building.pending.contains_key(id));
    let (saving, _) = after_built(building, id);
    assert(saving.pending.contains_key(id));
}

/// A caller is told to build only where the federation has no client and no
/// registration of it is under way; and from then on one is under way, so
/// that no other caller is told to build for it.
pub proof fn lemma_admitted_only_when_idle<H>(v: MultiMintView<H>, event: RegistrationEvent<H>)
    requires
        register_step(v, event).1 is Build,
    ensures
        event matches RegistrationEvent::Requested { invite_code, set_default } && {
            let id = invite_code@.federation_id;
            &&& !v.clients.contains_key(id)
            &&& !v.pending.contains_key(id)
            &&& register_step(v, event).0.pending.contains_key(id)
            &&& register_step(v, event).1 == RegistrationActionView::Build(
                FederationConfigView { invite_code: invite_code@, is_default: set_default },
            )
        },
{
}

/// A registration that is under way ends only by its own outcome: its
/// record is reported stored, or one of its steps is reported failed.
/// Until then every request for the federation is told to wait.
pub proof fn lemma_registration_ends_by_its_outcome<H>(
    v: MultiMintView<H>,
    event: RegistrationEvent<H>,
    id: Seq<u8>,
)
    requires
        v.pending.contains_key(id),
        !register_step(v, event).0.pending.contains_key(id),
    ensures
        match event {
            RegistrationEvent::Saved { federation_id, client } => federation_id@ == id,
            RegistrationEvent::BuildFailed { federation_id, reason } => federation_id@ == id,
            RegistrationEvent::SaveFailed { federation_id, reason } => federation_id@ == id,
            _ => false,
        },
{
}

/// The registry after a sequence of events, and the answers that were
/// given on the way, one for each event.
pub open spec fn register_run<H>(v: MultiMintView<H>, events: Seq<RegistrationEvent<H>>) -> (
    MultiMintView<H>,
    Seq<RegistrationActionView>,
)
    decreases events.len(),
{
    if events.len() == 0 {
        (v, Seq::empty())
    } else {
        let (before, actions) = register_run(v, events.drop_last());
        let (after, action) = register_step(before, events.last());
        (after, actions.push(action))
    }
}

/// Whether the answer tells a caller to build a client for `id`.
pub open spec fn admits(action: RegistrationActionView, id: Seq<u8>) -> bool {
    action matches RegistrationActionView::Build(config) && config.invite_code.federation_id == id
}

/// Whether the event reports the outcome of a registration of `id`, and
/// was taken as that.
pub open spec fn ends<H>(
    event: RegistrationEvent<H>,
    action: RegistrationActionView,
    id: Seq<u8>,
) -> bool {
    !(action is Ignored) && match event {
        RegistrationEvent::Saved { federation_id, client } => federation_id@ == id,
        RegistrationEvent::BuildFailed { federation_id, reason } => federation_id@ == id,
        RegistrationEvent::SaveFailed { federation_id, reason } => federation_id@ == id,
        _ => false,
    }
}

/// How many of the answers tell a caller to build a client for `id`.
pub open spec fn count_admitted(actions: Seq<RegistrationActionView>, id: Seq<u8>) -> nat
    decreases actions.len(),
{
    if actions.len() == 0 {
        0
    } else if admits(actions.last(), id) {
        count_admitted(actions.drop_last(), id) + 1
    } else {
        count_admitted(actions.drop_last(), id)
    }
}

/// How many registrations of `id` the events have ended.
pub open spec fn count_ended<H>(
    events: Seq<RegistrationEvent<H>>,
    actions: Seq<RegistrationActionView>,
    id: Seq<u8>,
) -> nat
    decreases events.len(),
{
    if events.len() == 0 || actions.len() == 0 {
        0
    } else if ends(events.last(), actions.last(), id) {
        count_ended(events.drop_last(), actions.drop_last(), id) + 1
    } else {
        count_ended(events.drop_last(), actions.drop_last(), id)
    }
}

/// Whatever callers do and in whatever order, no two clients are being
/// built for one federation at a time: the callers that were told to build
/// for it are those whose registration has ended, and one more where a
/// registration of it is under way.
pub proof fn lemma_one_build_at_a_time<H>(
    v: MultiMintView<H>,
    events: Seq<RegistrationEvent<H>>,
    id: Seq<u8>,
)
    requires
        !v.pending.contains_key(id),
    ensures
        ({
            let (after, actions) = register_run(v, events);
            &&& actions.len() == events.len()
            &&& count_admitted(actions, id) == count_ended(events, actions, id) + (
            if after.pending.contains_key(id) {
                1nat
            } else {
                0nat
            })
        }),
    decreases events.len(),
{
    if events.len() > 0 {
        lemma_one_build_at_a_time(v, events.drop_last(), id);
        let (before, earlier) = register_run(v, events.drop_last());
        let (after, action) = register_step(before, events.last());
        assert(earlier.push(action).drop_last() =~= earlier);
    }
}

/// Whether the answer tells a caller to store the record of `id`.
pub open spec fn asks_to_store(action: RegistrationActionView, id: Seq<u8>) -> bool {
    action matches RegistrationActionView::Save(config) && config.invite_code.federation_id == id
}

/// How many of the answers tell a caller to store the record of `id`.
pub open spec fn count_store_asked(actions: Seq<RegistrationActionView>, id: Seq<u8>) -> nat
    decreases actions.len(),
{
    if actions.len() == 0 {
        0
    } else if asks_to_store(actions.last(), id) {
        count_store_asked(actions.drop_last(), id) + 1
    } else {
        count_store_asked(actions.drop_last(), id)
    }
}

/// How many registrations of `id` have ended because no client could be
/// built.
pub open spec fn count_build_failed<H>(
    events: Seq<RegistrationEvent<H>>,
    actions: Seq<RegistrationActionView>,
    id: Seq<u8>,
) -> nat
    decreases events.len(),
{
    if events.len() == 0 || actions.len() == 0 {
        0
    } else if events.last() is BuildFailed && ends(events.last(), actions.last(), id) {
        count_build_failed(events.drop_last(), actions.drop_last(), id) + 1
    } else {
        count_build_failed(events.drop_last(), actions.drop_last(), id)
    }
}

/// Whatever callers do and in whatever order, the record of a federation
/// is asked to be stored once for each caller that was told to build its
/// client, and not at all for one whose build failed or is not done yet: no
/// record is stored for a caller that was told to wait.
pub proof fn lemma_one_record_per_build<H>(
    v: MultiMintView<H>,
    events: Seq<RegistrationEvent<H>>,
    id: Seq<u8>,
)
    requires
        filed_by_federation(v),
        !v.pending.contains_key(id),
    ensures
        ({
            let (after, actions) = register_run(v, events);
            &&& actions.len() == events.len()
            &&& count_admitted(actions, id) == count_store_asked(actions, id) + count_build_failed(
                events,
                actions,
                id,
            ) + (if after.pending.contains_key(id) && !after.pending[id].saving {
                1nat
            } else {
                0nat
            })
            &&& filed_by_federation(after)
        }),
    decreases events.len(),
{
    if events.len() > 0 {
        lemma_one_record_per_build(v, events.drop_last(), id);
        let (before, earlier) = register_run(v, events.drop_last());
        let (after, action) = register_step(before, events.last());
        assert(earlier.push(action).drop_last() =~= earlier);
    }
}

/// A client becomes visible only when its record has been stored: a step
/// of registration gives a federation a client only on the report that its
/// record was stored, and only where the registry had asked for that.
pub proof fn lemma_published_after_stored<H>(
    v: MultiMintView<H>,
    event: RegistrationEvent<H>,
    id: Seq<u8>,
)
    requires
        lookup(register_step(v, event).0.clients, id) != lookup(v.clients, id),
    ensures
        event matches RegistrationEvent::Saved { federation_id, client } && federation_id@ == id
            && v.pending.contains_key(id) && v.pending[id].saving,
{
}

/// The registry asks for a record to be stored only when the client of an
/// admitted registration has been built.
pub proof fn lemma_stored_after_built<H>(v: MultiMintView<H>, event: RegistrationEvent<H>)
    requires
        register_step(v, event).1 is Save,
    ensures
        event matches RegistrationEvent::Built { federation_id } && v.pending.contains_key(
            federation_id@,
        ) && !v.pending[federation_id@].saving && register_step(v, event).1
            == RegistrationActionView::Save(v.pending[federation_id@].config),
{
}

/// After a restart every federation whose record was read from the store
/// and whose client was built again is in the registry, without being
/// registered anew.
pub proof fn lemma_restart_restores<H>(v: MultiMintView<H>, loaded: Seq<LoadedClient<H>>, i: int)
    requires
        0 <= i < loaded.len(),
        loaded[i].client is Some,
    ensures
        after_load(v, loaded).clients.contains_key(loaded[i].config@.invite_code.federation_id),
    decreases loaded.len(),
{
    if i < loaded.len() - 1 {
        lemma_restart_restores(v, loaded.drop_last(), i);
        assert(loaded.drop_last()[i] == loaded[i]);
    }
}

/// Reading records at startup takes no federation out of the registry.
pub proof fn lemma_load_keeps_clients<H>(
    v: MultiMintView<H>,
    loaded: Seq<LoadedClient<H>>,
    id: Seq<u8>,
)
    requires
        v.clients.contains_key(id),
    ensures
        after_load(v, loaded).clients.contains_key(id),
    decreases loaded.len(),
{
    if loaded.len() > 0 {
        lemma_load_keeps_clients(v, loaded.drop_last(), id);
    }
}

} // verus!
