//! Reasons for which a request is refused or an exchange is given up.
use vstd::prelude::*;

verus! {

/// What a refused request or an abandoned exchange reports.
#[derive(Clone, Copy, Debug, PartialEq, Eq, Structural)]
pub enum SpdmError {
    /// The request is malformed, or asks for something that is not there.
    InvalidRequest,
    /// The request came before algorithms were negotiated.
    UnexpectedRequest,
    /// The request carries another version than the negotiated one.
    VersionMismatch,
    /// The responder cannot answer, for a reason that it does not tell.
    Unspecified,
    /// The platform refused a piece of work; its own error code is passed on.
    Platform(u32),
}

} // verus!
