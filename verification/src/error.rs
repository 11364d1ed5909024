//! What a refused exchange reports.
use vstd::prelude::*;

verus! {

/// Why a message was not taken or a send does not count, and whether trying
/// again may help.
#[derive(Debug, PartialEq, Eq)]
pub struct TransportError {
    pub message: String,
    pub retryable: bool,
}

/// A [`TransportError`] as a mathematical value.
pub struct ErrorView {
    pub message: Seq<char>,
    pub retryable: bool,
}

impl View for TransportError {
    type V = ErrorView;

    open spec fn view(&self) -> ErrorView {
        ErrorView { message: self.message@, retryable: self.retryable }
    }
}

impl Clone for TransportError {
    fn clone(&self) -> (copy: Self)
        ensures
            copy@ == self@,
    {
        TransportError { message: self.message.clone(), retryable: self.retryable }
    }
}

/// The error of a peer that does not speak the protocol: sending the same
/// again will not help.
pub open spec fn refused(message: Seq<char>) -> ErrorView {
    ErrorView { message, retryable: false }
}

/// A result as a mathematical value.
pub open spec fn outcome<T: View>(result: Result<T, TransportError>) -> Result<T::V, ErrorView> {
    match result {
        Ok(value) => Ok(value@),
        Err(error) => Err(error@),
    }
}

/// The error of a peer that does not speak the protocol.
pub fn protocol_error(message: String) -> (error: TransportError)
    ensures
        error@ == refused(message@),
{
    TransportError { message, retryable: false }
}

} // verus!
