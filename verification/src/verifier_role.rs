//! The verifier's side of a session as a state machine. The driver performs
//! each action against the engine and hands back what came of it;
//! `verifier_step` decides what the session does next.

use crate::bytes::str_eq;
use crate::error::SessionError;
use crate::session::ProtocolLimits;
use vstd::prelude::*;

verus! {

/// Where the verifier's session stands.
#[derive(Clone, Copy, Debug, PartialEq, Eq, Structural)]
pub enum VerifierState {
    /// Nothing is under way yet.
    Idle,
    /// Setting up with the prover.
    SettingUp,
    /// Set up; the prover's proof is awaited.
    AwaitingProof,
    /// The proof is with the engine, which checks it.
    Verifying,
    /// The session is over and the proof was accepted.
    Closed { sent_len: usize, received_len: usize },
    /// The session is over and failed, or the proof was rejected.
    Failed { reason: SessionError },
}

/// What the driver reports.
#[derive(Debug)]
pub enum VerifierEvent {
    /// The host hands over the inbound transport.
    Start,
    /// Setup with the prover is done.
    PeerReady,
    /// The prover has submitted its proof.
    ProofReceived,
    /// The engine holds the proof valid: the server's name that it asserts,
    /// and the transcripts as far as they are disclosed.
    Verified { server_name: String, sent: Vec<u8>, received: Vec<u8> },
    /// The action under way has failed; in `Verifying`, the engine rejects
    /// the proof.
    ActionFailed,
    /// The engine reports more traffic than the protocol parameters allow.
    LimitExceeded,
    /// The session's deadline has passed.
    DeadlineExpired,
}

/// What a verifier's session is run with. It is made when the session
/// starts and does not change.
#[derive(Debug)]
pub struct VerifierContext {
    /// The name of the upstream server that proofs must be about.
    pub expected_server: String,
    /// The protocol limits, which must be those of the prover.
    pub limits: ProtocolLimits,
}

/// What the driver is to do next.
#[derive(Clone, Copy, Debug, PartialEq, Eq, Structural)]
pub enum VerifierAction {
    /// Hand the inbound transport to the engine's setup, with the protocol
    /// limits.
    Setup { limits: ProtocolLimits },
    /// Await the prover's proof.
    AwaitProof,
    /// Have the engine check the proof.
    Verify,
    /// Close the session with the engine.
    Close,
    /// Cancel whatever is under way and drop the session.
    Abort,
    /// Nothing: the session is over.
    Nothing,
}

impl VerifierState {
    /// The session is over.
    pub open spec fn is_terminal(self) -> bool {
        self is Closed || self is Failed
    }

    /// The error of the step that is under way in this state.
    pub open spec fn step_error(self) -> SessionError {
        match self {
            VerifierState::Idle => SessionError::Setup,
            VerifierState::SettingUp => SessionError::Setup,
            VerifierState::AwaitingProof => SessionError::Exchange,
            VerifierState::Verifying => SessionError::Verify,
            VerifierState::Closed { .. } => SessionError::Verify,
            VerifierState::Failed { reason } => reason,
        }
    }
}

/// The state that follows `state` on `event`, for a verifier that expects a
/// proof about the server named `expected`.
///
/// A final state stays. The deadline, a broken limit and a failed action end
/// the session from every other state. A valid proof is accepted if the name
/// that it asserts is the expected one, letter for letter, and rejected with
/// `Verify` if not. Any other event is a breach of the order of the session
/// and fails it with the error of the step under way.
pub open spec fn verifier_next(
    state: VerifierState,
    event: VerifierEvent,
    expected: Seq<char>,
) -> VerifierState {
    if state.is_terminal() {
        state
    } else {
        match event {
            VerifierEvent::DeadlineExpired => VerifierState::Failed {
                reason: SessionError::Timeout,
            },
            VerifierEvent::LimitExceeded => VerifierState::Failed {
                reason: SessionError::ProtocolLimitExceeded,
            },
            VerifierEvent::ActionFailed => VerifierState::Failed { reason: state.step_error() },
            _ => match (state, event) {
                (VerifierState::Idle, VerifierEvent::Start) => VerifierState::SettingUp,
                (
                    VerifierState::SettingUp,
                    VerifierEvent::PeerReady,
                ) => VerifierState::AwaitingProof,
                (
                    VerifierState::AwaitingProof,
                    VerifierEvent::ProofReceived,
                ) => VerifierState::Verifying,
                (
                    VerifierState::Verifying,
                    VerifierEvent::Verified { server_name, sent, received },
                ) => if server_name@ == expected {
                    VerifierState::Closed {
                        sent_len: sent@.len() as usize,
                        received_len: received@.len() as usize,
                    }
                } else {
                    VerifierState::Failed { reason: SessionError::Verify }
                },
                _ => VerifierState::Failed { reason: state.step_error() },
            },
        }
    }
}

/// The action that the step from `state` on `event` asks for: on the way
/// forward the work of the state that is entered; `Close` when the session
/// ends, but `Abort` when the deadline has passed; nothing once it is over.
pub open spec fn verifier_action(
    state: VerifierState,
    event: VerifierEvent,
    context: VerifierContext,
) -> VerifierAction {
    if state.is_terminal() {
        VerifierAction::Nothing
    } else if event is DeadlineExpired {
        VerifierAction::Abort
    } else {
        match verifier_next(state, event, context.expected_server@) {
            VerifierState::Idle => VerifierAction::Nothing,
            VerifierState::SettingUp => VerifierAction::Setup { limits: context.limits },
            VerifierState::AwaitingProof => VerifierAction::AwaitProof,
            VerifierState::Verifying => VerifierAction::Verify,
            VerifierState::Closed { .. } => VerifierAction::Close,
            VerifierState::Failed { .. } => VerifierAction::Close,
        }
    }
}

impl VerifierContext {
    pub fn new(expected_server: String, limits: ProtocolLimits) -> (context: VerifierContext)
        ensures
            context.expected_server == expected_server,
            context.limits == limits,
    {
        VerifierContext { expected_server, limits }
    }
}

fn step_error_of(state: VerifierState) -> (e: SessionError)
    ensures
        e == state.step_error(),
{
    match state {
        VerifierState::Idle => SessionError::Setup,
        VerifierState::SettingUp => SessionError::Setup,
        VerifierState::AwaitingProof => SessionError::Exchange,
        VerifierState::Verifying => SessionError::Verify,
        VerifierState::Closed { .. } => SessionError::Verify,
        VerifierState::Failed { reason } => reason,
    }
}

/// One step of the verifier's session: from where it stands and what the
/// driver reports to where it stands then and what the driver is to do.
pub fn verifier_step(
    state: VerifierState,
    event: &VerifierEvent,
    context: &VerifierContext,
) -> (r: (VerifierState, VerifierAction))
    ensures
        r.0 == verifier_next(state, *event, context.expected_server@),
        r.1 == verifier_action(state, *event, *context),
{
    match state {
        VerifierState::Closed { .. } | VerifierState::Failed { .. } => {
            return (state, VerifierAction::Nothing);
        },
        _ => {},
    }
    match event {
        VerifierEvent::DeadlineExpired => {
            return (VerifierState::Failed { reason: SessionError::Timeout }, VerifierAction::Abort);
        },
        VerifierEvent::LimitExceeded => {
            return (
                VerifierState::Failed { reason: SessionError::ProtocolLimitExceeded },
                VerifierAction::Close,
            );
        },
        VerifierEvent::ActionFailed => {
            return (VerifierState::Failed { reason: step_error_of(state) }, VerifierAction::Close);
        },
        _ => {},
    }
    match (state, event) {
        (VerifierState::Idle, VerifierEvent::Start) => (
            VerifierState::SettingUp,
            VerifierAction::Setup { limits: context.limits },
        ),
        (VerifierState::SettingUp, VerifierEvent::PeerReady) => (
            VerifierState::AwaitingProof,
            VerifierAction::AwaitProof,
        ),
        (VerifierState::AwaitingProof, VerifierEvent::ProofReceived) => (
            VerifierState::Verifying,
            VerifierAction::Verify,
        ),
        (VerifierState::Verifying, VerifierEvent::Verified { server_name, sent, received }) => {
            if str_eq(server_name.as_str(), context.expected_server.as_str()) {
                (
                    VerifierState::Closed { sent_len: sent.len(), received_len: received.len() },
                    VerifierAction::Close,
                )
            } else {
                (VerifierState::Failed { reason: SessionError::Verify }, VerifierAction::Close)
            }
        },
        _ => (VerifierState::Failed { reason: step_error_of(state) }, VerifierAction::Close),
    }
}

/// The state after the events of `events`, one after another, from `state`.
pub open spec fn verifier_run(
    state: VerifierState,
    events: Seq<VerifierEvent>,
    expected: Seq<char>,
) -> VerifierState
    decreases events.len(),
{
    if events.len() == 0 {
        state
    } else {
        verifier_next(verifier_run(state, events.drop_last(), expected), events.last(), expected)
    }
}

/// Once a session is over, it stays in that state and asks for nothing.
pub proof fn lemma_verifier_final_state_stays(
    state: VerifierState,
    events: Seq<VerifierEvent>,
    context: VerifierContext,
)
    requires
        state.is_terminal(),
    ensures
        verifier_run(state, events, context.expected_server@) == state,
        forall|event: VerifierEvent| #[trigger]
            verifier_action(state, event, context) == VerifierAction::Nothing,
    decreases events.len(),
{
    if events.len() > 0 {
        lemma_verifier_final_state_stays(state, events.drop_last(), context);
    }
}

/// A proof is accepted only if it is about the expected server: a session
/// ends in `Closed` only by the step from `Verifying` on a valid proof that
/// asserts the expected name.
pub proof fn lemma_accepts_only_expected_server(
    state: VerifierState,
    event: VerifierEvent,
    expected: Seq<char>,
)
    requires
        !state.is_terminal(),
        verifier_next(state, event, expected) is Closed,
    ensures
        state is Verifying,
        event matches VerifierEvent::Verified { server_name, sent, received } && server_name@
            == expected && verifier_next(state, event, expected) == (VerifierState::Closed {
            sent_len: sent@.len() as usize,
            received_len: received@.len() as usize,
        }),
{
}

/// A session whose deadline passes while it runs fails with `Timeout`, and
/// the step asks the driver to abort.
pub proof fn lemma_verifier_deadline(state: VerifierState, context: VerifierContext)
    requires
        !state.is_terminal(),
    ensures
        verifier_next(state, VerifierEvent::DeadlineExpired, context.expected_server@) == (
        VerifierState::Failed { reason: SessionError::Timeout }),
        verifier_action(state, VerifierEvent::DeadlineExpired, context) == VerifierAction::Abort,
{
}

} // verus!
