use multimint::error::{AppError, ErrorKind};
use multimint::federation::FederationId;
use fedimint_core::encoding::Decodable;
use fedimint_core::module::registry::ModuleRegistry;
use fedimint_core::{Amount, BitcoinHash, TieredMulti};
use fedimint_mint_client::{OOBNotes, SpendableNote};
use multimint::swap::{
    check_balance, get_clients, handle_swap, perform_swap, EcashNotes, OperationId,
    ReissueExternalNotesState, SwapAction, SwapEvent, SwapPayload, SwapResponse, SwapState,
    MINT_TIMEOUT_SECS,
};
use multimint::MultiMint;
use std::path::PathBuf;
use std::sync::Arc;

fn id(first: u8) -> FederationId {
    let mut bytes = [0u8; 32];
    bytes[0] = first;
    FederationId(bytes)
}

const NOTE: &str = "a5dd3ebacad1bc48bd8718eed5a8da1d68f91323bef2848ac4fa2e6f8eed710f3178fd4aef047cc234e6b1127086f33cc408b39818781d9521475360de6b205f3328e490a6d99d5e2553a4553207c8bd";

/// A bundle of the federation client, of a federation that is told by
/// `label`, with the given numbers of notes of the given denominations.
fn outside_bundle(label: &str, tiers: &[(u64, usize)]) -> OOBNotes {
    let note = SpendableNote::consensus_decode_hex(NOTE, &ModuleRegistry::default()).unwrap();
    let held: TieredMulti<SpendableNote> = tiers
        .iter()
        .flat_map(|(msat, count)| std::iter::repeat((Amount::from_msats(*msat), note)).take(*count))
        .collect();
    let federation = fedimint_core::config::FederationId(BitcoinHash::from_byte_array(
        [label.len() as u8; 32],
    ));
    OOBNotes::new(federation.to_prefix(), held)
}

/// One note worth `msat`.
fn notes(label: &str, msat: u64) -> EcashNotes {
    EcashNotes::new(outside_bundle(label, &[(msat, 1)])).unwrap()
}

/// A registry with the federations F1 and F2.
fn two_federations() -> MultiMint<&'static str> {
    let mut registry = MultiMint::new(PathBuf::from("/tmp/gateway"));
    registry.update(&id(1), Arc::new("F1"));
    registry.update(&id(2), Arc::new("F2"));
    registry
}

fn request(from: u8, to: u8, msat: u64) -> SwapPayload {
    SwapPayload {
        from_federation_id: id(from),
        to_federation_id: id(to),
        from_ecash: notes("source notes", msat),
    }
}

fn refusal(message: &str) -> AppError {
    AppError::new(ErrorKind::Validation, message.to_string())
}

const OPERATION: OperationId = OperationId([0x5a; 32]);

#[test]
fn clients_of_both_federations_are_found() {
    let registry = two_federations();
    let (from, to) = get_clients(&registry, &request(1, 2, 10)).unwrap();
    assert_eq!(*from, "F1");
    assert_eq!(*to, "F2");
    let (from, to) = get_clients(&registry, &request(2, 1, 10)).unwrap();
    assert_eq!(*from, "F2");
    assert_eq!(*to, "F1");
}

#[test]
fn swap_from_an_unknown_federation_is_refused() {
    let registry = two_federations();
    let error = get_clients(&registry, &request(9, 2, 10)).unwrap_err();
    assert_eq!(error, refusal("This swap does not have a client for the from_federation_id"));
    assert_eq!(error.status(), 400);
    let error = handle_swap(&registry, request(9, 2, 10)).err().unwrap();
    assert_eq!(error, refusal("This swap does not have a client for the from_federation_id"));
}

#[test]
fn swap_to_an_unknown_federation_is_refused() {
    let registry = two_federations();
    let error = get_clients(&registry, &request(1, 9, 10)).unwrap_err();
    assert_eq!(error, refusal("This swap does not have a client for the to_federation_id"));
    assert_eq!(error.status(), 400);
    let error = handle_swap(&registry, request(1, 9, 10)).err().unwrap();
    assert_eq!(error, refusal("This swap does not have a client for the to_federation_id"));
}

#[test]
fn swap_between_unknown_federations_names_the_source() {
    let registry = two_federations();
    let error = get_clients(&registry, &request(8, 9, 10)).unwrap_err();
    assert_eq!(error, refusal("This swap does not have a client for the from_federation_id"));
}

#[test]
fn swap_with_yourself_is_refused() {
    let registry = two_federations();
    for msat in [0u64, 1, 1_000, u64::MAX] {
        let error = handle_swap(&registry, request(1, 1, msat)).err().unwrap();
        assert_eq!(error, refusal("Cannot swap with yourself"));
        assert_eq!(error.status(), 400);
        assert!(error.is_validation());
    }
    let error = handle_swap(&registry, request(9, 9, 5)).err().unwrap();
    assert!(error.is_validation());
    assert_eq!(error.status(), 400);
}

#[test]
fn accepted_swap_starts_by_validating() {
    let registry = two_federations();
    let start = handle_swap(&registry, request(1, 2, 1_000)).ok().unwrap();
    assert_eq!(*start.from_client, "F1");
    assert_eq!(*start.to_client, "F2");
    assert_eq!(start.state, SwapState::Validating { notes: notes("source notes", 1_000) });
}

#[test]
fn balance_must_cover_the_amount() {
    assert_eq!(check_balance(1_000, 1_000), Ok(()));
    assert_eq!(check_balance(1_001, 1_000), Ok(()));
    assert_eq!(check_balance(0, 0), Ok(()));
    assert_eq!(check_balance(u64::MAX, u64::MAX), Ok(()));
    let short = Err(refusal("Not enough ecash to perform this swap"));
    assert_eq!(check_balance(999, 1_000), short);
    assert_eq!(check_balance(0, 1), short);
    assert_eq!(check_balance(u64::MAX - 1, u64::MAX), short);
}

#[test]
fn swap_of_1000_into_a_balance_of_500_is_refused_unredeemed() {
    let registry = two_federations();
    let start = handle_swap(&registry, request(1, 2, 1_000)).ok().unwrap();
    let (state, action) = perform_swap(start.state, SwapEvent::Balance(500));
    assert_eq!(state, SwapState::Failed);
    let error = refusal("Not enough ecash to perform this swap");
    assert_eq!(error.status(), 400);
    assert_eq!(action, SwapAction::Fail(error));
    let (state, action) = perform_swap(state, SwapEvent::Submitted(OPERATION));
    assert_eq!(state, SwapState::Failed);
    assert_eq!(action, SwapAction::Ignore);
}

#[test]
fn swap_goes_through_all_its_stages() {
    let registry = two_federations();
    let start = handle_swap(&registry, request(1, 2, 1_000)).ok().unwrap();

    let (state, action) = perform_swap(start.state, SwapEvent::Balance(1_000));
    assert_eq!(state, SwapState::Redeeming { amount_msat: 1_000 });
    assert_eq!(action, SwapAction::Redeem(notes("source notes", 1_000)));

    let (state, action) = perform_swap(state, SwapEvent::Submitted(OPERATION));
    assert_eq!(state, SwapState::AwaitingTerminal { amount_msat: 1_000, operation: OPERATION });
    assert_eq!(action, SwapAction::Await(OPERATION));

    let (state, action) =
        perform_swap(state, SwapEvent::Update(ReissueExternalNotesState::Created));
    assert_eq!(state, SwapState::AwaitingTerminal { amount_msat: 1_000, operation: OPERATION });
    assert_eq!(action, SwapAction::Await(OPERATION));

    let (state, action) =
        perform_swap(state, SwapEvent::Update(ReissueExternalNotesState::Issuing));
    assert_eq!(state, SwapState::AwaitingTerminal { amount_msat: 1_000, operation: OPERATION });
    assert_eq!(action, SwapAction::Await(OPERATION));

    let (state, action) = perform_swap(state, SwapEvent::Update(ReissueExternalNotesState::Done));
    assert_eq!(state, SwapState::Minting { amount_msat: 1_000 });
    assert_eq!(action, SwapAction::Mint { amount_msat: 1_000, timeout_secs: 3_600 });
    assert_eq!(MINT_TIMEOUT_SECS, 3_600);

    let (state, action) = perform_swap(state, SwapEvent::Minted(notes("fresh notes", 1_000)));
    assert_eq!(state, SwapState::Complete);
    let response = SwapResponse { status: "ok".to_string(), ecash: notes("fresh notes", 1_000) };
    assert_eq!(response.ecash.total_amount(), 1_000);
    assert_eq!(action, SwapAction::Respond(response));
}

#[test]
fn failed_redemption_is_reported_with_its_reason() {
    let state = SwapState::AwaitingTerminal { amount_msat: 1_000, operation: OPERATION };
    let (state, action) = perform_swap(
        state,
        SwapEvent::Update(ReissueExternalNotesState::Failed("insufficient liquidity".to_string())),
    );
    assert_eq!(state, SwapState::Failed);
    let error = AppError::new(ErrorKind::Redemption, "insufficient liquidity".to_string());
    assert_eq!(error.status(), 500);
    assert_eq!(error.message, "insufficient liquidity");
    assert_eq!(action, SwapAction::Fail(error));
}

#[test]
fn first_final_state_decides_and_later_ones_are_ignored() {
    let state = SwapState::AwaitingTerminal { amount_msat: 7, operation: OPERATION };
    let (state, _) = perform_swap(state, SwapEvent::Update(ReissueExternalNotesState::Done));
    assert_eq!(state, SwapState::Minting { amount_msat: 7 });
    for update in [
        ReissueExternalNotesState::Failed("late".to_string()),
        ReissueExternalNotesState::Done,
        ReissueExternalNotesState::Issuing,
        ReissueExternalNotesState::Created,
    ] {
        let (after, action) =
            perform_swap(SwapState::Minting { amount_msat: 7 }, SwapEvent::Update(update));
        assert_eq!(after, SwapState::Minting { amount_msat: 7 });
        assert_eq!(action, SwapAction::Ignore);
    }
    let (after, action) = perform_swap(state, SwapEvent::StreamEnded);
    assert_eq!(after, SwapState::Minting { amount_msat: 7 });
    assert_eq!(action, SwapAction::Ignore);

    let failed = SwapState::AwaitingTerminal { amount_msat: 7, operation: OPERATION };
    let (failed, _) = perform_swap(
        failed,
        SwapEvent::Update(ReissueExternalNotesState::Failed("first".to_string())),
    );
    let (failed, action) = perform_swap(failed, SwapEvent::Update(ReissueExternalNotesState::Done));
    assert_eq!(failed, SwapState::Failed);
    assert_eq!(action, SwapAction::Ignore);
}

#[test]
fn stream_that_ends_without_final_state_fails_the_swap() {
    let state = SwapState::AwaitingTerminal { amount_msat: 7, operation: OPERATION };
    let (state, _) = perform_swap(state, SwapEvent::Update(ReissueExternalNotesState::Issuing));
    let (state, action) = perform_swap(state, SwapEvent::StreamEnded);
    assert_eq!(state, SwapState::Failed);
    let error =
        AppError::new(ErrorKind::NoTerminalOutcome, "no terminal outcome observed".to_string());
    assert_eq!(error.status(), 500);
    assert_eq!(action, SwapAction::Fail(error));
}

#[test]
fn notes_that_cannot_be_handed_in_fail_the_swap() {
    let (state, action) = perform_swap(
        SwapState::Redeeming { amount_msat: 5 },
        SwapEvent::SubmitFailed("notes already spent".to_string()),
    );
    assert_eq!(state, SwapState::Failed);
    let error = AppError::new(ErrorKind::Redemption, "notes already spent".to_string());
    assert_eq!(error.status(), 500);
    assert_eq!(action, SwapAction::Fail(error));
}

#[test]
fn failed_minting_fails_the_swap_after_redemption() {
    let (state, action) = perform_swap(
        SwapState::Minting { amount_msat: 5 },
        SwapEvent::MintFailed("timed out".to_string()),
    );
    assert_eq!(state, SwapState::Failed);
    let error = AppError::new(ErrorKind::Minting, "timed out".to_string());
    assert_eq!(error.status(), 500);
    assert_eq!(action, SwapAction::Fail(error));
}

#[test]
fn notes_worth_more_than_asked_are_answered_as_issued() {
    let (state, action) = perform_swap(
        SwapState::Minting { amount_msat: 1_000 },
        SwapEvent::Minted(notes("one note of 1024", 1_024)),
    );
    assert_eq!(state, SwapState::Complete);
    assert_eq!(
        action,
        SwapAction::Respond(SwapResponse {
            status: "ok".to_string(),
            ecash: notes("one note of 1024", 1_024)
        })
    );
}

#[test]
fn bundle_is_worth_the_value_of_all_its_notes() {
    let held = outside_bundle("three tiers", &[(1, 5), (1_024, 2)]);
    let bundle = EcashNotes::new(held.clone()).unwrap();
    assert_eq!(bundle.total_amount(), 2_053);
    assert_eq!(bundle.total_amount(), held.total_amount().msats);
    assert_eq!(bundle.bundle(), &held);
    assert_eq!(notes("one", u64::MAX).total_amount(), u64::MAX);
    assert_eq!(notes("none", 0).total_amount(), 0);
    for tiers in [
        vec![(1u64, 1usize)],
        vec![(2, 7), (4, 1), (8, 3)],
        vec![(1 << 40, 2), (1, 9)],
        vec![(u64::MAX - 5, 1), (1, 5)],
    ] {
        let held = outside_bundle("many", &tiers);
        let expected = held.total_amount().msats;
        assert_eq!(EcashNotes::new(held).unwrap().total_amount(), expected);
    }
}

#[test]
fn bundle_worth_more_than_can_be_counted_is_refused() {
    assert_eq!(EcashNotes::new(outside_bundle("too much", &[(1 << 63, 2)])), None);
    assert_eq!(EcashNotes::new(outside_bundle("too much", &[(u64::MAX, 1), (1, 1)])), None);
    assert!(EcashNotes::new(outside_bundle("just enough", &[(u64::MAX - 1, 1), (1, 1)])).is_some());
}

#[test]
fn bundle_read_from_its_text_is_worth_its_notes() {
    let text = outside_bundle("text", &[(1, 3), (1_024, 2), (1 << 20, 1)]).to_string();
    let read = <OOBNotes as std::str::FromStr>::from_str(&text).unwrap();
    let bundle = EcashNotes::new(read.clone()).unwrap();
    assert_eq!(bundle.total_amount(), 3 + 2 * 1_024 + (1 << 20));
    assert_eq!(bundle.bundle().to_string(), text);
}

#[test]
fn events_out_of_turn_change_nothing() {
    let validating = || SwapState::Validating { notes: notes("n", 10) };
    for event in [
        SwapEvent::Submitted(OPERATION),
        SwapEvent::SubmitFailed("x".to_string()),
        SwapEvent::Update(ReissueExternalNotesState::Done),
        SwapEvent::StreamEnded,
        SwapEvent::Minted(notes("m", 10)),
        SwapEvent::MintFailed("x".to_string()),
    ] {
        let (state, action) = perform_swap(validating(), event);
        assert_eq!(state, validating());
        assert_eq!(action, SwapAction::Ignore);
    }
    let (state, action) = perform_swap(SwapState::Redeeming { amount_msat: 1 }, SwapEvent::Balance(5));
    assert_eq!(state, SwapState::Redeeming { amount_msat: 1 });
    assert_eq!(action, SwapAction::Ignore);
    let (state, action) = perform_swap(
        SwapState::AwaitingTerminal { amount_msat: 1, operation: OPERATION },
        SwapEvent::Balance(5),
    );
    assert_eq!(state, SwapState::AwaitingTerminal { amount_msat: 1, operation: OPERATION });
    assert_eq!(action, SwapAction::Ignore);
}

#[test]
fn finished_swap_takes_no_event() {
    for event in [
        SwapEvent::Balance(u64::MAX),
        SwapEvent::Submitted(OPERATION),
        SwapEvent::Update(ReissueExternalNotesState::Done),
        SwapEvent::Minted(notes("m", 10)),
    ] {
        let (state, action) = perform_swap(SwapState::Complete, event);
        assert_eq!(state, SwapState::Complete);
        assert_eq!(action, SwapAction::Ignore);
    }
    let (state, action) = perform_swap(SwapState::Failed, SwapEvent::Balance(u64::MAX));
    assert_eq!(state, SwapState::Failed);
    assert_eq!(action, SwapAction::Ignore);
}

#[test]
fn notes_are_redeemed_once_in_a_whole_swap() {
    let events = vec![
        SwapEvent::Balance(50),
        SwapEvent::Balance(50),
        SwapEvent::Submitted(OPERATION),
        SwapEvent::Balance(50),
        SwapEvent::Update(ReissueExternalNotesState::Done),
        SwapEvent::Balance(50),
        SwapEvent::Minted(notes("m", 10)),
        SwapEvent::Balance(50),
    ];
    let mut state = SwapState::Validating { notes: notes("n", 10) };
    let mut redeems = 0;
    for event in events {
        let (next, action) = perform_swap(state, event);
        if matches!(action, SwapAction::Redeem(_)) {
            redeems += 1;
        }
        state = next;
    }
    assert_eq!(redeems, 1);
    assert_eq!(state, SwapState::Complete);
}

#[test]
fn error_kinds_have_their_status() {
    let status = |kind| AppError::new(kind, String::new()).status();
    assert_eq!(status(ErrorKind::Validation), 400);
    assert_eq!(status(ErrorKind::Build), 409);
    assert_eq!(status(ErrorKind::Store), 409);
    assert_eq!(status(ErrorKind::Redemption), 500);
    assert_eq!(status(ErrorKind::NoTerminalOutcome), 500);
    assert_eq!(status(ErrorKind::Minting), 500);
    assert!(AppError::new(ErrorKind::Validation, String::new()).is_validation());
    assert!(!AppError::new(ErrorKind::Minting, String::new()).is_validation());
}
