//! The engine's error type: what aborts a sync, as opposed to a conflict,
//! which is a successful result.

use vstd::prelude::*;

verus! {

/// The mathematical content of an engine error.
pub ghost enum ErrorView {
    APIResponseError { message: Seq<char> },
    UsageError { message: Seq<char> },
}

/// Why a sync batch was aborted. Conflicts are never errors; these are
/// protocol and encoding faults.
#[derive(Debug)]
pub enum Error {
    /// A payload was malformed where the protocol assumed well-formed data.
    APIResponseError(String),
    /// The operation was asked of state it cannot apply to.
    UsageError { message: String },
}

impl View for Error {
    type V = ErrorView;

    open spec fn view(&self) -> ErrorView {
        match self {
            Error::APIResponseError(m) => ErrorView::APIResponseError { message: m@ },
            Error::UsageError { message } => ErrorView::UsageError { message: message@ },
        }
    }
}

impl Error {
    /// The error's message, for display by the caller.
    pub fn message(&self) -> (r: &String)
        ensures
            r@ == match self@ {
                ErrorView::APIResponseError { message } => message,
                ErrorView::UsageError { message } => message,
            },
    {
        match self {
            Error::APIResponseError(m) => m,
            Error::UsageError { message } => message,
        }
    }
}

} // verus!
