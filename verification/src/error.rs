//! What can go wrong in a session.

use vstd::prelude::*;

verus! {

/// `std::io::Error`, a failure of the transport. It is carried through as it
/// came; nothing of its inside is known here.
#[verifier::external_type_specification]
#[verifier::external_body]
pub struct ExIoError(std::io::Error);

/// Why an operation on a session failed.
#[derive(Debug)]
pub enum SwitchExpectError {
    /// The transport failed; the failure is handed on as it came.
    TokioIOError(std::io::Error),
    /// The timer ran out before what was expected showed up.
    ExpectTimeout,
    /// The character names no control code.
    UnknownControlCode(char),
}

/// What an operation on a session comes to.
pub type SwitchExpectResult<T> = Result<T, SwitchExpectError>;

/// A failure of the transport is an error of the session as it stands.
impl From<std::io::Error> for SwitchExpectError {
    fn from(cause: std::io::Error) -> (error: SwitchExpectError) {
        SwitchExpectError::TokioIOError(cause)
    }
}

impl vstd::std_specs::convert::FromSpecImpl<std::io::Error> for SwitchExpectError {
    open spec fn obeys_from_spec() -> bool {
        true
    }

    open spec fn from_spec(cause: std::io::Error) -> SwitchExpectError {
        SwitchExpectError::TokioIOError(cause)
    }
}

} // verus!
