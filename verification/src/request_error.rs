//! Errors that a request is answered with.

use vstd::prelude::*;

verus! {

/// Why a request was refused or failed.
#[derive(Clone, Debug, PartialEq, Eq)]
pub enum RequestError {
    /// The request was not valid, with the reason.
    InvalidRequest(String),
    /// The server failed, with the reason.
    Internal(String),
    /// The thread store does not support this operation.
    UnsupportedOperation(String),
}

/// The mathematical counterpart of [`RequestError`].
pub enum RequestFault {
    InvalidRequest(Seq<char>),
    Internal(Seq<char>),
    UnsupportedOperation(Seq<char>),
}

impl View for RequestError {
    type V = RequestFault;

    open spec fn view(&self) -> RequestFault {
        match self {
            RequestError::InvalidRequest(m) => RequestFault::InvalidRequest(m@),
            RequestError::Internal(m) => RequestFault::Internal(m@),
            RequestError::UnsupportedOperation(o) => RequestFault::UnsupportedOperation(o@),
        }
    }
}

} // verus!
