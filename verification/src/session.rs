//! What both roles of a session share: the protocol parameters and the
//! outcome that is reported to the host.

use crate::error::{ParseError, SessionError};
use vstd::prelude::*;

verus! {

/// Most bytes that a session may send to the upstream server.
pub const MAX_SENT_DATA: usize = 512;

/// Most bytes that a session may receive from the upstream server.
pub const MAX_RECV_DATA: usize = 2048;

/// The fixed upper bounds on the traffic of a session. Both roles set up with
/// the same bounds; the engine fails a session that exceeds one.
#[derive(Clone, Copy, Debug, PartialEq, Eq, Structural)]
pub struct ProtocolLimits {
    pub max_sent: usize,
    pub max_received: usize,
}

impl ProtocolLimits {
    /// The bounds of this deployment.
    pub fn fixed() -> (limits: ProtocolLimits)
        ensures
            limits.max_sent == MAX_SENT_DATA,
            limits.max_received == MAX_RECV_DATA,
    {
        ProtocolLimits { max_sent: MAX_SENT_DATA, max_received: MAX_RECV_DATA }
    }
}

/// How a session ended.
#[derive(Clone, Copy, Debug, PartialEq, Eq, Structural)]
pub enum SessionOutcome {
    Success { sent_len: usize, received_len: usize },
    Failure { reason: SessionError },
}

/// The words for `error` in a report.
pub open spec fn reason_text(error: SessionError) -> Seq<char> {
    match error {
        SessionError::Setup => "setup failed"@,
        SessionError::Connect => "connect failed"@,
        SessionError::Exchange => "exchange failed"@,
        SessionError::Parse(ParseError::MalformedHttp) => "malformed HTTP message"@,
        SessionError::Parse(ParseError::MalformedJson) => "malformed JSON document"@,
        SessionError::Parse(ParseError::MissingHeader) => "header not found"@,
        SessionError::Parse(ParseError::MissingField) => "field not found"@,
        SessionError::PlanUnsatisfiable => "disclosure plan unsatisfiable"@,
        SessionError::Prove => "proving failed"@,
        SessionError::Verify => "verification failed"@,
        SessionError::Timeout => "timeout"@,
        SessionError::ProtocolLimitExceeded => "protocol limit exceeded"@,
    }
}

impl SessionError {
    /// The words for this error in a report.
    pub fn reason(&self) -> (text: &'static str)
        ensures
            text@ == reason_text(*self),
    {
        match self {
            SessionError::Setup => "setup failed",
            SessionError::Connect => "connect failed",
            SessionError::Exchange => "exchange failed",
            SessionError::Parse(ParseError::MalformedHttp) => "malformed HTTP message",
            SessionError::Parse(ParseError::MalformedJson) => "malformed JSON document",
            SessionError::Parse(ParseError::MissingHeader) => "header not found",
            SessionError::Parse(ParseError::MissingField) => "field not found",
            SessionError::PlanUnsatisfiable => "disclosure plan unsatisfiable",
            SessionError::Prove => "proving failed",
            SessionError::Verify => "verification failed",
            SessionError::Timeout => "timeout",
            SessionError::ProtocolLimitExceeded => "protocol limit exceeded",
        }
    }
}

} // verus!
