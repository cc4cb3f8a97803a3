//! The ways in which a request can fail.

use vstd::prelude::*;

verus! {

/// A failure of the store itself.
#[derive(Debug, Clone, Copy, PartialEq, Eq, Structural)]
pub enum StoreError {
    /// The largest id has been handed out: no further row can be inserted.
    Full,
    /// The rows break a rule of the store: they are not in the order of
    /// their ids, an order has no id, or a table has two active sessions.
    Constraint,
}

/// Why a request was not served.
#[derive(Debug, PartialEq, Eq)]
pub enum Error {
    /// The store failed; nothing was changed.
    Sql { source: StoreError },
    /// The request does not fit the state of the tables; `msg` says why.
    Api { msg: String },
}

/// What an [`Error`] is, with its message as a sequence of characters.
pub enum ErrorView {
    Sql { source: StoreError },
    Api { msg: Seq<char> },
}

impl View for Error {
    type V = ErrorView;

    open spec fn view(&self) -> ErrorView {
        match self {
            Error::Sql { source } => ErrorView::Sql { source: *source },
            Error::Api { msg } => ErrorView::Api { msg: msg@ },
        }
    }
}

/// What a result is: the view of what it holds, or the view of its error.
pub open spec fn result_view<T: View>(r: Result<T, Error>) -> Result<T::V, ErrorView> {
    match r {
        Ok(x) => Ok(x@),
        Err(e) => Err(e@),
    }
}

} // verus!
