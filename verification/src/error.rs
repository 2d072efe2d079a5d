//! Errors surfaced by the core, with the HTTP status each one maps to.

use vstd::prelude::*;

verus! {

/// What went wrong while serving a request.
#[derive(Debug, Clone, PartialEq, Eq)]
pub enum Error {
    /// Empty body or malformed arguments.
    BadRequest(String),
    /// A capability check failed.
    Forbidden(String),
    /// The object, or the version that was asked for, is absent.
    NotFound,
    /// A block could not be fetched from any replica.
    BlockUnavailable,
    /// A table or block write could not reach its quorum.
    QuorumUnavailable,
    /// The request body could not be read, or the response not written.
    Transport(String),
    /// An invariant of the store was found violated.
    Internal(String),
}

/// The mathematical value of an `Error`.
pub enum ErrorView {
    BadRequest(Seq<char>),
    Forbidden(Seq<char>),
    NotFound,
    BlockUnavailable,
    QuorumUnavailable,
    Transport(Seq<char>),
    Internal(Seq<char>),
}

impl View for Error {
    type V = ErrorView;

    open spec fn view(&self) -> ErrorView {
        match self {
            Error::BadRequest(m) => ErrorView::BadRequest(m@),
            Error::Forbidden(m) => ErrorView::Forbidden(m@),
            Error::NotFound => ErrorView::NotFound,
            Error::BlockUnavailable => ErrorView::BlockUnavailable,
            Error::QuorumUnavailable => ErrorView::QuorumUnavailable,
            Error::Transport(m) => ErrorView::Transport(m@),
            Error::Internal(m) => ErrorView::Internal(m@),
        }
    }
}

impl Error {
    /// The HTTP status code that stands for this error.
    pub open spec fn status(self) -> u16 {
        match self {
            Error::BadRequest(_) => 400,
            Error::Forbidden(_) => 403,
            Error::NotFound => 404,
            Error::BlockUnavailable => 503,
            Error::QuorumUnavailable => 503,
            Error::Transport(_) => 500,
            Error::Internal(_) => 500,
        }
    }

    /// True of `BadRequest` carrying exactly `msg`.
    pub open spec fn is_bad_request(self, msg: Seq<char>) -> bool {
        self matches Error::BadRequest(m) && m@ == msg
    }

    /// True of `Forbidden` carrying exactly `msg`.
    pub open spec fn is_forbidden(self, msg: Seq<char>) -> bool {
        self matches Error::Forbidden(m) && m@ == msg
    }

    /// The HTTP status code to answer with.
    pub fn http_status_code(&self) -> (code: u16)
        ensures
            code == self.status(),
            400 <= code < 600,
    {
        match self {
            Error::BadRequest(_) => 400,
            Error::Forbidden(_) => 403,
            Error::NotFound => 404,
            Error::BlockUnavailable => 503,
            Error::QuorumUnavailable => 503,
            Error::Transport(_) => 500,
            Error::Internal(_) => 500,
        }
    }
}

} // verus!
