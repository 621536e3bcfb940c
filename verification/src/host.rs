//! The session host: which endpoint starts which role, and what is reported
//! when a session has ended or has run out of time.

use crate::bytes::str_eq;
use crate::error::SessionError;
use crate::prover_role::ProverState;
use crate::session::SessionOutcome;
use crate::verifier_role::VerifierState;
use vstd::prelude::*;

verus! {

/// The two roles of a session.
#[derive(Clone, Copy, Debug, PartialEq, Eq, Structural)]
pub enum Role {
    Prover,
    Verifier,
}

/// What the host serves.
#[derive(Clone, Copy, Debug, PartialEq, Eq, Structural)]
pub enum Endpoint {
    /// A session in the given role, over the upgraded connection.
    Session(Role),
    /// The liveness report.
    Health,
}

/// The endpoint at `path`: `/prove` starts a prover, `/verify` a verifier,
/// `/health` reports liveness, and nothing is served elsewhere.
pub open spec fn endpoint_at(path: Seq<char>) -> Option<Endpoint> {
    if path == "/prove"@ {
        Some(Endpoint::Session(Role::Prover))
    } else if path == "/verify"@ {
        Some(Endpoint::Session(Role::Verifier))
    } else if path == "/health"@ {
        Some(Endpoint::Health)
    } else {
        None
    }
}

/// Finds the endpoint that the request path names.
pub fn route(path: &str) -> (endpoint: Option<Endpoint>)
    ensures
        endpoint == endpoint_at(path@),
{
    if str_eq(path, "/prove") {
        Some(Endpoint::Session(Role::Prover))
    } else if str_eq(path, "/verify") {
        Some(Endpoint::Session(Role::Verifier))
    } else if str_eq(path, "/health") {
        Some(Endpoint::Health)
    } else {
        None
    }
}

/// The outcome of a prover's session, once it is over.
pub fn prover_outcome(state: ProverState) -> (outcome: Option<SessionOutcome>)
    ensures
        outcome == match state {
            ProverState::Closed { sent_len, received_len } => Some(
                SessionOutcome::Success { sent_len, received_len },
            ),
            ProverState::Failed { reason } => Some(SessionOutcome::Failure { reason }),
            _ => None,
        },
{
    match state {
        ProverState::Closed { sent_len, received_len } => Some(
            SessionOutcome::Success { sent_len, received_len },
        ),
        ProverState::Failed { reason } => Some(SessionOutcome::Failure { reason }),
        _ => None,
    }
}

/// The outcome of a verifier's session, once it is over.
pub fn verifier_outcome(state: VerifierState) -> (outcome: Option<SessionOutcome>)
    ensures
        outcome == match state {
            VerifierState::Closed { sent_len, received_len } => Some(
                SessionOutcome::Success { sent_len, received_len },
            ),
            VerifierState::Failed { reason } => Some(SessionOutcome::Failure { reason }),
            _ => None,
        },
{
    match state {
        VerifierState::Closed { sent_len, received_len } => Some(
            SessionOutcome::Success { sent_len, received_len },
        ),
        VerifierState::Failed { reason } => Some(SessionOutcome::Failure { reason }),
        _ => None,
    }
}

/// What the host reports of a session that ran against the deadline: the
/// session's own outcome if it ended in time, and a failure by `Timeout` if
/// the deadline cut it off. A session is never run again.
pub fn report(ended: Option<SessionOutcome>) -> (outcome: SessionOutcome)
    ensures
        outcome == match ended {
            Some(o) => o,
            None => SessionOutcome::Failure { reason: SessionError::Timeout },
        },
{
    match ended {
        Some(o) => o,
        None => SessionOutcome::Failure { reason: SessionError::Timeout },
    }
}

} // verus!
