//! Swapping ecash between two federations: notes of the source federation
//! are redeemed at the destination federation, and notes of the same value
//! are issued there in return.
//!
//! A swap goes through the stages `Validating`, `Redeeming`,
//! `AwaitingTerminal`, `Minting` and `Complete`, and can fail at each. The
//! work of each stage is done outside (a balance is read, notes are
//! submitted, a stream of states is followed, notes are issued);
//! [`perform_swap`] takes what came of it and says what is to be done next.
//!
//! The redemption is submitted to the mint of the destination federation,
//! and it is that mint whose stream of states is followed and that issues
//! the new notes: every action of a swap is carried out by the client of the
//! destination federation.
//!
//! The destination federation must hold at least the value of the notes
//! before anything is submitted. This is a rule for the operator: a gateway
//! swaps into a federation only what it already holds there.
//!
//! When the redemption is done, the value is part of the balance held at the
//! destination federation. If issuing the new notes fails after that, the swap
//! ends in an error, but the value is not lost: it stays in that balance and
//! can be issued later.

use crate::error::{AppError, AppErrorView, ErrorKind};
use crate::federation::FederationId;
use crate::registry::MultiMint;
use crate::types::{tiers_total, valid_tiers, Tier, TieredSummary};
use std::sync::Arc;
use vstd::prelude::*;

verus! {

/// For how many seconds issuing the new notes may wait for notes to
/// become available: one hour.
pub const MINT_TIMEOUT_SECS: u64 = 3600;

/// `fedimint_mint_client::OOBNotes`, a bundle of ecash notes as the
/// federation client holds it. Nothing is said of what is inside one but
/// through [`oob_notes_tiers`].
#[verifier::external_type_specification]
#[verifier::external_body]
pub struct ExOOBNotes(fedimint_mint_client::OOBNotes);

/// The notes that a bundle holds, as `fedimint_mint_client::OOBNotes` counts
/// them: each denomination that the bundle holds, with the number of its
/// notes.
pub uninterp spec fn oob_notes_tiers(notes: fedimint_mint_client::OOBNotes) -> Seq<Tier>;

/// Hands out what `notes().summary().iter()` of
/// `fedimint_mint_client::OOBNotes` gives for the bundle: each denomination
/// with the number of its notes. The contract says no more than that these
/// are the notes that the bundle holds; nothing is added up here.
#[verifier::external_body]
fn tiers_of_notes(notes: &fedimint_mint_client::OOBNotes) -> (tiers: Vec<Tier>)
    ensures
        tiers@ == oob_notes_tiers(*notes),
{
    notes.notes().summary().iter().map(
        |(amount, count)| Tier { denomination_msat: amount.msats, count },
    ).collect()
}

/// A bundle of ecash notes: the notes as the federation client holds them,
/// and their total value in millisatoshi. Only [`EcashNotes::new`] makes one,
/// so that the value is always the value of the notes that the bundle holds.
#[derive(Debug, PartialEq, Eq)]
pub struct EcashNotes {
    bundle: fedimint_mint_client::OOBNotes,
    total_msat: u64,
}

/// What an [`EcashNotes`] bundle says.
pub struct EcashNotesView {
    pub bundle: fedimint_mint_client::OOBNotes,
    pub total_msat: u64,
}

impl View for EcashNotes {
    type V = EcashNotesView;

    closed spec fn view(&self) -> EcashNotesView {
        EcashNotesView { bundle: self.bundle, total_msat: self.total_msat }
    }
}

/// What the notes of the tiers are worth together, in millisatoshi: `None`
/// where that is more than can be counted, or where the denominations are
/// not in ascending order.
pub open spec fn worth_of(tiers: Seq<Tier>) -> Option<u64> {
    if valid_tiers(tiers) {
        Some(tiers_total(tiers) as u64)
    } else {
        None
    }
}

/// The bundle with what its notes are worth: `None` where they are worth
/// more than can be counted.
pub open spec fn bundle_of(bundle: fedimint_mint_client::OOBNotes) -> Option<EcashNotesView> {
    match worth_of(oob_notes_tiers(bundle)) {
        Some(total_msat) => Some(EcashNotesView { bundle, total_msat }),
        None => None,
    }
}

impl EcashNotes {
    #[verifier::type_invariant]
    spec fn worth_its_notes(&self) -> bool {
        worth_of(oob_notes_tiers(self.bundle)) == Some(self.total_msat)
    }

    /// Takes a bundle of notes in, and adds up what its notes are worth.
    pub fn new(bundle: fedimint_mint_client::OOBNotes) -> (r: Option<EcashNotes>)
        ensures
            match r {
                Some(notes) => bundle_of(bundle) == Some(notes@),
                None => bundle_of(bundle) is None,
            },
    {
        match TieredSummary::new(tiers_of_notes(&bundle)) {
            Some(summary) => Some(EcashNotes { bundle, total_msat: summary.total_amount() }),
            None => None,
        }
    }

    /// The notes as the federation client holds them.
    pub fn bundle(&self) -> (bundle: &fedimint_mint_client::OOBNotes)
        ensures
            *bundle == self@.bundle,
    {
        &self.bundle
    }

    /// The total value of the notes, in millisatoshi: what the notes that
    /// the bundle holds are worth together.
    pub fn total_amount(&self) -> (msat: u64)
        ensures
            msat == self@.total_msat,
            worth_of(oob_notes_tiers(self@.bundle)) == Some(msat),
    {
        proof {
            use_type_invariant(self);
        }
        self.total_msat
    }
}

/// A request to swap `from_ecash`, notes of the federation
/// `from_federation_id`, into notes of the federation `to_federation_id`.
#[derive(Debug, PartialEq, Eq)]
pub struct SwapPayload {
    pub to_federation_id: FederationId,
    pub from_federation_id: FederationId,
    pub from_ecash: EcashNotes,
}

/// The answer to a swap that went through: the notes issued at the
/// destination federation.
#[derive(Debug, PartialEq, Eq)]
pub struct SwapResponse {
    pub status: String,
    pub ecash: EcashNotes,
}

/// What a [`SwapResponse`] says.
pub struct SwapResponseView {
    pub status: Seq<char>,
    pub ecash: EcashNotesView,
}

impl View for SwapResponse {
    type V = SwapResponseView;

    open spec fn view(&self) -> SwapResponseView {
        SwapResponseView { status: self.status@, ecash: self.ecash@ }
    }
}

/// The number under which a federation client follows one operation.
#[derive(Clone, Copy, Debug, PartialEq, Eq)]
pub struct OperationId(pub [u8; 32]);

impl View for OperationId {
    type V = Seq<u8>;

    open spec fn view(&self) -> Seq<u8> {
        self.0@
    }
}

/// A state of a redemption, as the federation client reports it.
#[derive(Debug, PartialEq, Eq)]
pub enum ReissueExternalNotesState {
    /// The operation exists and waits to be accepted by the federation.
    Created,
    /// The federation has accepted; new notes are being signed.
    Issuing,
    /// The redemption went through.
    Done,
    /// The redemption failed, for the reason given.
    Failed(String),
}

impl ReissueExternalNotesState {
    /// Whether the state is final: `Done` or `Failed`.
    pub open spec fn is_terminal(self) -> bool {
        self is Done || self is Failed
    }
}

/// The stage that a swap is at.
#[derive(Debug, PartialEq, Eq)]
pub enum SwapState {
    /// The federations are known and differ; the balance held at the
    /// destination is being read.
    Validating { notes: EcashNotes },
    /// The notes have been handed in for redemption.
    Redeeming { amount_msat: u64 },
    /// The redemption runs under `operation`; its states are followed.
    AwaitingTerminal { amount_msat: u64, operation: OperationId },
    /// The redemption is done; new notes are being issued.
    Minting { amount_msat: u64 },
    /// The swap went through.
    Complete,
    /// The swap failed.
    Failed,
}

/// What a [`SwapState`] says.
pub enum SwapStateView {
    Validating { notes: EcashNotesView },
    Redeeming { amount_msat: u64 },
    AwaitingTerminal { amount_msat: u64, operation: Seq<u8> },
    Minting { amount_msat: u64 },
    Complete,
    Failed,
}

impl View for SwapState {
    type V = SwapStateView;

    open spec fn view(&self) -> SwapStateView {
        match self {
            SwapState::Validating { notes } => SwapStateView::Validating { notes: notes@ },
            SwapState::Redeeming { amount_msat } => SwapStateView::Redeeming {
                amount_msat: *amount_msat,
            },
            SwapState::AwaitingTerminal { amount_msat, operation } => {
                SwapStateView::AwaitingTerminal { amount_msat: *amount_msat, operation: operation@ }
            },
            SwapState::Minting { amount_msat } => SwapStateView::Minting {
                amount_msat: *amount_msat,
            },
            SwapState::Complete => SwapStateView::Complete,
            SwapState::Failed => SwapStateView::Failed,
        }
    }
}

/// What has happened in a swap.
pub enum SwapEvent {
    /// The destination federation holds this balance, in millisatoshi.
    Balance(u64),
    /// The notes were handed in; the redemption runs under this number.
    Submitted(OperationId),
    /// The notes could not be handed in.
    SubmitFailed(String),
    /// The redemption has reached this state.
    Update(ReissueExternalNotesState),
    /// The stream of states has ended.
    StreamEnded,
    /// These notes were issued at the destination.
    Minted(EcashNotes),
    /// No notes could be issued at the destination.
    MintFailed(String),
}

/// What is to be done next in a swap. Each action is carried out by the
/// client of the destination federation.
#[derive(Debug, PartialEq, Eq)]
pub enum SwapAction {
    /// Hand these notes in for redemption.
    Redeem(EcashNotes),
    /// Follow the states of this operation: report the next one.
    Await(OperationId),
    /// Issue notes worth at least `amount_msat`, waiting no longer than
    /// `timeout_secs` for notes to become available.
    Mint { amount_msat: u64, timeout_secs: u64 },
    /// Answer the caller: the swap went through.
    Respond(SwapResponse),
    /// Answer the caller: the swap failed with this error.
    Fail(AppError),
    /// Nothing: the event does not belong to the stage the swap is at.
    Ignore,
}

/// What a [`SwapAction`] says.
pub enum SwapActionView {
    Redeem(EcashNotesView),
    Await(Seq<u8>),
    Mint { amount_msat: u64, timeout_secs: u64 },
    Respond(SwapResponseView),
    Fail(AppErrorView),
    Ignore,
}

impl View for SwapAction {
    type V = SwapActionView;

    open spec fn view(&self) -> SwapActionView {
        match self {
            SwapAction::Redeem(notes) => SwapActionView::Redeem(notes@),
            SwapAction::Await(operation) => SwapActionView::Await(operation@),
            SwapAction::Mint { amount_msat, timeout_secs } => SwapActionView::Mint {
                amount_msat: *amount_msat,
                timeout_secs: *timeout_secs,
            },
            SwapAction::Respond(response) => SwapActionView::Respond(response@),
            SwapAction::Fail(error) => SwapActionView::Fail(error@),
            SwapAction::Ignore => SwapActionView::Ignore,
        }
    }
}

/// The two clients of a swap, and the stage it starts at.
pub struct SwapStart<H> {
    pub from_client: Arc<H>,
    pub to_client: Arc<H>,
    pub state: SwapState,
}

/// The error of a request that is refused, with the message given.
pub open spec fn refusal(message: Seq<char>) -> AppErrorView {
    AppErrorView { kind: ErrorKind::Validation, message }
}

/// The clients of the source and of the destination of a swap, or the
/// refusal of a swap that names a federation without a client; the source
/// is looked at first.
pub open spec fn clients_of<H>(
    clients: Map<Seq<u8>, Arc<H>>,
    from: Seq<u8>,
    to: Seq<u8>,
) -> Result<(Arc<H>, Arc<H>), AppErrorView> {
    if !clients.contains_key(from) {
        Err(refusal("This swap does not have a client for the from_federation_id"@))
    } else if !clients.contains_key(to) {
        Err(refusal("This swap does not have a client for the to_federation_id"@))
    } else {
        Ok((clients[from], clients[to]))
    }
}

/// The outcome of checking that `balance` covers `amount`.
pub open spec fn balance_check(balance: u64, amount: u64) -> Result<(), AppErrorView> {
    if balance < amount {
        Err(refusal("Not enough ecash to perform this swap"@))
    } else {
        Ok(())
    }
}

/// The stage after `event`, and what is to be done next.
///
/// An event that does not belong to the stage changes nothing and asks for
/// nothing. That holds of every event at a swap that is complete or has
/// failed, and of every further state of the redemption once a final state
/// has been seen: the first final state decides.
pub open spec fn swap_step(state: SwapStateView, event: SwapEvent) -> (
    SwapStateView,
    SwapActionView,
) {
    match (state, event) {
        (SwapStateView::Validating { notes }, SwapEvent::Balance(balance)) => {
            match balance_check(balance, notes.total_msat) {
                Ok(_) => (
                    SwapStateView::Redeeming { amount_msat: notes.total_msat },
                    SwapActionView::Redeem(notes),
                ),
                Err(error) => (SwapStateView::Failed, SwapActionView::Fail(error)),
            }
        },
        (SwapStateView::Redeeming { amount_msat }, SwapEvent::Submitted(operation)) => (
            SwapStateView::AwaitingTerminal { amount_msat, operation: operation@ },
            SwapActionView::Await(operation@),
        ),
        (SwapStateView::Redeeming { amount_msat }, SwapEvent::SubmitFailed(reason)) => (
            SwapStateView::Failed,
            SwapActionView::Fail(AppErrorView { kind: ErrorKind::Redemption, message: reason@ }),
        ),
        (SwapStateView::AwaitingTerminal { amount_msat, operation }, SwapEvent::Update(update)) => {
            match update {
                ReissueExternalNotesState::Done => (
                    SwapStateView::Minting { amount_msat },
                    SwapActionView::Mint { amount_msat, timeout_secs: MINT_TIMEOUT_SECS },
                ),
                ReissueExternalNotesState::Failed(reason) => (
                    SwapStateView::Failed,
                    SwapActionView::Fail(
                        AppErrorView { kind: ErrorKind::Redemption, message: reason@ },
                    ),
                ),
                _ => (state, SwapActionView::Await(operation)),
            }
        },
        (SwapStateView::AwaitingTerminal { amount_msat, operation }, SwapEvent::StreamEnded) => (
            SwapStateView::Failed,
            SwapActionView::Fail(
                AppErrorView {
                    kind: ErrorKind::NoTerminalOutcome,
                    message: "no terminal outcome observed"@,
                },
            ),
        ),
        (SwapStateView::Minting { amount_msat }, SwapEvent::Minted(notes)) => (
            SwapStateView::Complete,
            SwapActionView::Respond(SwapResponseView { status: "ok"@, ecash: notes@ }),
        ),
        (SwapStateView::Minting { amount_msat }, SwapEvent::MintFailed(reason)) => (
            SwapStateView::Failed,
            SwapActionView::Fail(AppErrorView { kind: ErrorKind::Minting, message: reason@ }),
        ),
        _ => (state, SwapActionView::Ignore),
    }
}

/// How a swap begins: refused where a federation has no client or where
/// source and destination are the same federation; otherwise at the stage
/// `Validating`, with the two clients.
pub open spec fn swap_start<H>(
    clients: Map<Seq<u8>, Arc<H>>,
    from: Seq<u8>,
    to: Seq<u8>,
    notes: EcashNotesView,
) -> Result<(Arc<H>, Arc<H>, SwapStateView), AppErrorView> {
    match clients_of(clients, from, to) {
        Err(error) => Err(error),
        Ok((from_client, to_client)) => if from == to {
            Err(refusal("Cannot swap with yourself"@))
        } else {
            Ok((from_client, to_client, SwapStateView::Validating { notes }))
        },
    }
}

/// Finds the clients of the two federations that a swap names.
pub fn get_clients<H>(clients: &MultiMint<H>, req: &SwapPayload) -> (r: Result<
    (Arc<H>, Arc<H>),
    AppError,
>)
    requires
        clients.wf(),
    ensures
        match r {
            Ok(pair) => clients_of(clients@.clients, req.from_federation_id@, req.to_federation_id@)
                == Ok::<(Arc<H>, Arc<H>), AppErrorView>(pair),
            Err(error) => clients_of(
                clients@.clients,
                req.from_federation_id@,
                req.to_federation_id@,
            ) == Err::<(Arc<H>, Arc<H>), AppErrorView>(error@),
        },
{
    let from_client = match clients.get(&req.from_federation_id) {
        Some(client) => client,
        None => {
            return Err(
                AppError::new(
                    ErrorKind::Validation,
                    "This swap does not have a client for the from_federation_id".to_owned(),
                ),
            );
        },
    };
    let to_client = match clients.get(&req.to_federation_id) {
        Some(client) => client,
        None => {
            return Err(
                AppError::new(
                    ErrorKind::Validation,
                    "This swap does not have a client for the to_federation_id".to_owned(),
                ),
            );
        },
    };
    Ok((from_client, to_client))
}

/// Checks that the balance held at the destination covers the amount of a
/// swap.
pub fn check_balance(balance_msat: u64, amount_msat: u64) -> (r: Result<(), AppError>)
    ensures
        match r {
            Ok(_) => balance_check(balance_msat, amount_msat) == Ok::<(), AppErrorView>(()),
            Err(error) => balance_check(balance_msat, amount_msat) == Err::<(), AppErrorView>(
                error@,
            ),
        },
{
    if balance_msat < amount_msat {
        Err(
            AppError::new(
                ErrorKind::Validation,
                "Not enough ecash to perform this swap".to_owned(),
            ),
        )
    } else {
        Ok(())
    }
}

/// Begins a swap: finds the two clients and refuses a swap of a federation
/// with itself. What comes back says where the swap starts; the balance
/// held at the destination is to be read next and reported to
/// [`perform_swap`].
pub fn handle_swap<H>(clients: &MultiMint<H>, req: SwapPayload) -> (r: Result<
    SwapStart<H>,
    AppError,
>)
    requires
        clients.wf(),
    ensures
        match r {
            Ok(start) => swap_start(
                clients@.clients,
                req.from_federation_id@,
                req.to_federation_id@,
                req.from_ecash@,
            ) == Ok::<(Arc<H>, Arc<H>, SwapStateView), AppErrorView>(
                (start.from_client, start.to_client, start.state@),
            ),
            Err(error) => swap_start(
                clients@.clients,
                req.from_federation_id@,
                req.to_federation_id@,
                req.from_ecash@,
            ) == Err::<(Arc<H>, Arc<H>, SwapStateView), AppErrorView>(error@),
        },
        req.from_federation_id@ == req.to_federation_id@ ==> r is Err && r->Err_0.kind
            == ErrorKind::Validation,
{
    let (from_client, to_client) = match get_clients(clients, &req) {
        Ok(pair) => pair,
        Err(error) => {
            return Err(error);
        },
    };
    if req.from_federation_id.same(&req.to_federation_id) {
        return Err(AppError::new(ErrorKind::Validation, "Cannot swap with yourself".to_owned()));
    }
    Ok(SwapStart { from_client, to_client, state: SwapState::Validating { notes: req.from_ecash } })
}

/// Takes one event of a swap and says what is to be done next.
pub fn perform_swap(state: SwapState, event: SwapEvent) -> (r: (SwapState, SwapAction))
    ensures
        (r.0@, r.1@) == swap_step(state@, event),
{
    match (state, event) {
        (SwapState::Validating { notes }, SwapEvent::Balance(balance)) => {
            match check_balance(balance, notes.total_amount()) {
                Ok(_) => (
                    SwapState::Redeeming { amount_msat: notes.total_amount() },
                    SwapAction::Redeem(notes),
                ),
                Err(error) => (SwapState::Failed, SwapAction::Fail(error)),
            }
        },
        (SwapState::Redeeming { amount_msat }, SwapEvent::Submitted(operation)) => (
            SwapState::AwaitingTerminal { amount_msat, operation },
            SwapAction::Await(operation),
        ),
        (SwapState::Redeeming { amount_msat }, SwapEvent::SubmitFailed(reason)) => (
            SwapState::Failed,
            SwapAction::Fail(AppError::new(ErrorKind::Redemption, reason)),
        ),
        (SwapState::AwaitingTerminal { amount_msat, operation }, SwapEvent::Update(update)) => {
            match update {
                ReissueExternalNotesState::Done => (
                    SwapState::Minting { amount_msat },
                    SwapAction::Mint { amount_msat, timeout_secs: MINT_TIMEOUT_SECS },
                ),
                ReissueExternalNotesState::Failed(reason) => (
                    SwapState::Failed,
                    SwapAction::Fail(AppError::new(ErrorKind::Redemption, reason)),
                ),
                _ => (
                    SwapState::AwaitingTerminal { amount_msat, operation },
                    SwapAction::Await(operation),
                ),
            }
        },
        (SwapState::AwaitingTerminal { amount_msat, operation }, SwapEvent::StreamEnded) => (
            SwapState::Failed,
            SwapAction::Fail(
                AppError::new(
                    ErrorKind::NoTerminalOutcome,
                    "no terminal outcome observed".to_owned(),
                ),
            ),
        ),
        (SwapState::Minting { amount_msat }, SwapEvent::Minted(notes)) => (
            SwapState::Complete,
            SwapAction::Respond(SwapResponse { status: "ok".to_owned(), ecash: notes }),
        ),
        (SwapState::Minting { amount_msat }, SwapEvent::MintFailed(reason)) => (
            SwapState::Failed,
            SwapAction::Fail(AppError::new(ErrorKind::Minting, reason)),
        ),
        (state, _) => (state, SwapAction::Ignore),
    }
}

/// The stage that a swap is at after a sequence of events, and the actions
/// that were asked for on the way, one for each event.
pub open spec fn swap_run(state: SwapStateView, events: Seq<SwapEvent>) -> (
    SwapStateView,
    Seq<SwapActionView>,
)
    decreases events.len(),
{
    if events.len() == 0 {
        (state, Seq::empty())
    } else {
        let (before, actions) = swap_run(state, events.drop_last());
        let (after, action) = swap_step(before, events.last());
        (after, actions.push(action))
    }
}

/// How many of the actions ask for notes to be redeemed.
pub open spec fn count_redeems(actions: Seq<SwapActionView>) -> nat
    decreases actions.len(),
{
    if actions.len() == 0 {
        0
    } else if actions.last() is Redeem {
        count_redeems(actions.drop_last()) + 1
    } else {
        count_redeems(actions.drop_last())
    }
}

/// The states of a redemption, each as the event that reports it.
pub open spec fn update_events(updates: Seq<ReissueExternalNotesState>) -> Seq<SwapEvent> {
    Seq::new(updates.len(), |i: int| SwapEvent::Update(updates[i]))
}

/// A swap of a federation with itself is refused, whatever the registry
/// holds and whatever the notes are worth.
pub proof fn lemma_self_swap_is_refused<H>(
    clients: Map<Seq<u8>, Arc<H>>,
    id: Seq<u8>,
    notes: EcashNotesView,
)
    ensures
        swap_start(clients, id, id, notes) is Err,
        swap_start(clients, id, id, notes)->Err_0.kind == ErrorKind::Validation,
{
}

/// A swap whose destination holds less than the notes are worth is refused
/// when the balance is reported, and nothing is asked of the network.
pub proof fn lemma_uncovered_swap_is_refused(notes: EcashNotesView, balance: u64)
    requires
        balance < notes.total_msat,
    ensures
        swap_step(SwapStateView::Validating { notes }, SwapEvent::Balance(balance)) == (
            SwapStateView::Failed,
            SwapActionView::Fail(refusal("Not enough ecash to perform this swap"@)),
        ),
{
}

/// Notes are handed in for redemption only at the stage `Validating`, on
/// the report of a balance that covers them; and they are the notes of the
/// request.
pub proof fn lemma_redeem_only_when_covered(state: SwapStateView, event: SwapEvent)
    requires
        swap_step(state, event).1 is Redeem,
    ensures
        state matches SwapStateView::Validating { notes } && event matches SwapEvent::Balance(
            balance,
        ) && balance >= notes.total_msat && swap_step(state, event).1 == SwapActionView::Redeem(
            notes,
        ),
{
}

/// New notes are asked for only when the redemption is reported done, and
/// for the value of the notes that were handed in.
pub proof fn lemma_mint_only_when_done(state: SwapStateView, event: SwapEvent)
    requires
        swap_step(state, event).1 is Mint,
    ensures
        state matches SwapStateView::AwaitingTerminal { amount_msat, operation } && event
            == SwapEvent::Update(ReissueExternalNotesState::Done) && swap_step(state, event).1 == (
            SwapActionView::Mint { amount_msat, timeout_secs: 3600 }
        ),
{
}

/// A swap that goes through answers with the notes that were issued, as
/// they are. Where the notes issued are worth the amount asked for, so is
/// the answer.
pub proof fn lemma_swap_returns_what_was_issued(amount_msat: u64, issued: EcashNotes)
    ensures
        swap_step(SwapStateView::Minting { amount_msat }, SwapEvent::Minted(issued)) == (
            SwapStateView::Complete,
            SwapActionView::Respond(SwapResponseView { status: "ok"@, ecash: issued@ }),
        ),
        issued@.total_msat == amount_msat ==> swap_step(
            SwapStateView::Minting { amount_msat },
            SwapEvent::Minted(issued),
        ).1->Respond_0.ecash.total_msat == amount_msat,
{
}

/// In the whole course of a swap, whatever happens, notes are handed in for
/// redemption once at most, and never by a swap that is past `Validating`.
pub proof fn lemma_notes_are_redeemed_once(state: SwapStateView, events: Seq<SwapEvent>)
    ensures
        count_redeems(swap_run(state, events).1) <= 1,
        count_redeems(swap_run(state, events).1) == 1 ==> !(swap_run(state, events).0
            is Validating),
        !(state is Validating) ==> count_redeems(swap_run(state, events).1) == 0 && !(swap_run(
            state,
            events,
        ).0 is Validating),
    decreases events.len(),
{
    if events.len() > 0 {
        lemma_notes_are_redeemed_once(state, events.drop_last());
        let (before, actions) = swap_run(state, events.drop_last());
        let (after, action) = swap_step(before, events.last());
        assert(actions.push(action).drop_last() =~= actions);
    }
}

/// While the redemption reports states that are not final, the swap stays
/// where it is and goes on following the operation.
pub proof fn lemma_waits_for_final_state(
    amount_msat: u64,
    operation: Seq<u8>,
    updates: Seq<ReissueExternalNotesState>,
)
    requires
        forall|i: int| 0 <= i < updates.len() ==> !(#[trigger] updates[i]).is_terminal(),
    ensures
        ({
            let waiting = SwapStateView::AwaitingTerminal { amount_msat, operation };
            let (after, actions) = swap_run(waiting, update_events(updates));
            &&& after == waiting
            &&& actions.len() == updates.len()
            &&& forall|i: int|
                0 <= i < actions.len() ==> #[trigger] actions[i] == SwapActionView::Await(
                    operation,
                )
        }),
    decreases updates.len(),
{
    if updates.len() > 0 {
        lemma_waits_for_final_state(amount_msat, operation, updates.drop_last());
        assert(update_events(updates).drop_last() =~= update_events(updates.drop_last()));
        assert(!updates[updates.len() - 1].is_terminal());
    }
}

/// The first final state of the redemption decides the swap: the swap is
/// where that state put it, and every state reported after it is ignored.
pub proof fn lemma_first_final_state_decides(
    amount_msat: u64,
    operation: Seq<u8>,
    updates: Seq<ReissueExternalNotesState>,
    first: int,
)
    requires
        0 <= first < updates.len(),
        updates[first].is_terminal(),
        forall|i: int| 0 <= i < first ==> !(#[trigger] updates[i]).is_terminal(),
    ensures
        ({
            let waiting = SwapStateView::AwaitingTerminal { amount_msat, operation };
            let (after, actions) = swap_run(waiting, update_events(updates));
            let decided = swap_step(waiting, SwapEvent::Update(updates[first]));
            &&& after == decided.0
            &&& after == match updates[first] {
                ReissueExternalNotesState::Done => SwapStateView::Minting { amount_msat },
                _ => SwapStateView::Failed,
            }
            &&& actions.len() == updates.len()
            &&& actions[first] == decided.1
            &&& forall|i: int|
                first < i < actions.len() ==> #[trigger] actions[i] == SwapActionView::Ignore
        }),
    decreases updates.len(),
{
    let waiting = SwapStateView::AwaitingTerminal { amount_msat, operation };
    let shorter = updates.drop_last();
    assert(update_events(updates).drop_last() =~= update_events(shorter));
    if first == updates.len() - 1 {
        assert forall|i: int| 0 <= i < shorter.len() implies !(#[trigger] shorter[i]).is_terminal() by {
            assert(shorter[i] == updates[i]);
        }
        lemma_waits_for_final_state(amount_msat, operation, shorter);
    } else {
        assert(shorter[first] == updates[first]);
        assert forall|i: int| 0 <= i < first implies !(#[trigger] shorter[i]).is_terminal() by {
            assert(shorter[i] == updates[i]);
        }
        lemma_first_final_state_decides(amount_msat, operation, shorter, first);
    }
}

/// A stream of states that ends without a final state fails the swap: no
/// outcome was seen.
pub proof fn lemma_stream_without_final_state_fails(
    amount_msat: u64,
    operation: Seq<u8>,
    updates: Seq<ReissueExternalNotesState>,
)
    requires
        forall|i: int| 0 <= i < updates.len() ==> !(#[trigger] updates[i]).is_terminal(),
    ensures
        ({
            let waiting = SwapStateView::AwaitingTerminal { amount_msat, operation };
            let events = update_events(updates).push(SwapEvent::StreamEnded);
            let (after, actions) = swap_run(waiting, events);
            &&& after == SwapStateView::Failed
            &&& actions.last() == SwapActionView::Fail(
                AppErrorView {
                    kind: ErrorKind::NoTerminalOutcome,
                    message: "no terminal outcome observed"@,
                },
            )
        }),
{
    lemma_waits_for_final_state(amount_msat, operation, updates);
    let events = update_events(updates).push(SwapEvent::StreamEnded);
    assert(events.drop_last() =~= update_events(updates));
}

/// A swap that is complete or has failed takes no further event.
pub proof fn lemma_finished_swap_stays(state: SwapStateView, event: SwapEvent)
    requires
        state is Complete || state is Failed,
    ensures
        swap_step(state, event) == (state, SwapActionView::Ignore),
{
}

} // verus!
