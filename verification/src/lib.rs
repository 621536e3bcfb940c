//! Selective disclosure for notarized HTTP sessions: transcript parsing,
//! redaction planning and the session state machines of both roles.

pub mod bytes;
pub mod config;
pub mod error;
pub mod host;
pub mod http;
pub mod json;
pub mod planner;
pub mod policy;
pub mod prover_role;
pub mod range_set;
pub mod session;
pub mod span;
pub mod verifier_role;
