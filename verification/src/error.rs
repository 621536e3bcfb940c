//! Errors of transcript parsing and of a session.

use vstd::prelude::*;

verus! {

/// Why a transcript could not be parsed or a lookup in it failed.
#[derive(Clone, Copy, Debug, PartialEq, Eq, Structural)]
pub enum ParseError {
    /// The bytes are not a well-formed HTTP/1.x message.
    MalformedHttp,
    /// The bytes are not a well-formed JSON document.
    MalformedJson,
    /// No header of the message has the name asked for.
    MissingHeader,
    /// No scalar field of the document has the path asked for.
    MissingField,
}

/// The ways in which a session fails. Each of them ends the session.
#[derive(Clone, Copy, Debug, PartialEq, Eq, Structural)]
pub enum SessionError {
    /// Transport or negotiation failure while setting up with the peer.
    Setup,
    /// The upstream server is unreachable or the handshake with it failed.
    Connect,
    /// Non-success response, or the exchange with the server broke down.
    Exchange,
    /// A transcript is malformed.
    Parse(ParseError),
    /// The disclosure policy cannot be met against the transcript.
    PlanUnsatisfiable,
    /// The engine failed to produce the proof.
    Prove,
    /// The engine rejected the proof, or the proof is about another server.
    Verify,
    /// The session deadline passed.
    Timeout,
    /// More bytes were sent or received than the protocol parameters allow.
    ProtocolLimitExceeded,
}

} // verus!
