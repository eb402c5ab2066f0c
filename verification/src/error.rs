//! The failures of a page render and the status each one is answered with.

use vstd::prelude::*;
use vstd::string::*;

verus! {

/// Why a book page could not be rendered.
#[derive(Clone, Debug, PartialEq, Eq)]
pub enum BookPageError {
    /// The identifier failed syntactic validation; no fetch was made.
    InvalidId,
    /// The identifier is well formed and names no record.
    BookNotFound,
    /// The record source itself failed. The detail is for diagnostics only.
    ServerError(String),
}

/// The status that a failure of the record source is answered with.
#[derive(Clone, Copy, Debug, PartialEq, Eq, Structural)]
pub enum ServerErrorPolicy {
    /// Answer as if the record did not exist.
    AsNotFound,
    /// Answer with an internal server error.
    AsInternalError,
}

/// Status of a successful render.
pub const STATUS_OK: u16 = 200;

/// Status of a render whose identifier was malformed.
pub const STATUS_BAD_REQUEST: u16 = 400;

/// Status of a render whose identifier names no record.
pub const STATUS_NOT_FOUND: u16 = 404;

/// Status of a failed record source under `ServerErrorPolicy::AsInternalError`.
pub const STATUS_INTERNAL_ERROR: u16 = 500;

/// The detail that stands in for an empty one.
pub open spec fn unknown_detail() -> Seq<char> {
    "unknown failure"@
}

/// The detail carried for a failure that the record source described by `raw`.
pub open spec fn normalized_detail(raw: Seq<char>) -> Seq<char> {
    if raw.len() == 0 {
        unknown_detail()
    } else {
        raw
    }
}

/// The status a failed record source is answered with under `policy`.
pub open spec fn server_error_status(policy: ServerErrorPolicy) -> u16 {
    match policy {
        ServerErrorPolicy::AsNotFound => STATUS_NOT_FOUND,
        ServerErrorPolicy::AsInternalError => STATUS_INTERNAL_ERROR,
    }
}

/// A failure as text: what a `BookPageError` is, whatever string holds its detail.
pub enum Failure {
    InvalidId,
    BookNotFound,
    ServerError(Seq<char>),
}

impl Failure {
    /// A failure carries a detail only for the record source, and never an empty one.
    pub open spec fn wf(self) -> bool {
        match self {
            Failure::ServerError(detail) => detail.len() > 0,
            _ => true,
        }
    }

    /// The status this failure is answered with under `policy`.
    pub open spec fn status(self, policy: ServerErrorPolicy) -> u16 {
        match self {
            Failure::InvalidId => STATUS_BAD_REQUEST,
            Failure::BookNotFound => STATUS_NOT_FOUND,
            Failure::ServerError(_) => server_error_status(policy),
        }
    }

    /// The sentence shown to the reader for this failure.
    pub open spec fn message(self) -> Seq<char> {
        match self {
            Failure::InvalidId => "Invalid book ID."@,
            Failure::BookNotFound => "Book not found."@,
            Failure::ServerError(detail) => "Server error: "@ + detail + "."@,
        }
    }
}

impl View for BookPageError {
    type V = Failure;

    open spec fn view(&self) -> Failure {
        match self {
            BookPageError::InvalidId => Failure::InvalidId,
            BookPageError::BookNotFound => Failure::BookNotFound,
            BookPageError::ServerError(detail) => Failure::ServerError(detail@),
        }
    }
}

impl BookPageError {
    /// Builds the failure for a record source that failed with `raw` as its
    /// description. An empty description is replaced, so that the detail of a
    /// `ServerError` is never empty.
    pub fn server_error(raw: String) -> (e: BookPageError)
        ensures
            e@ == Failure::ServerError(normalized_detail(raw@)),
            e@.wf(),
    {
        proof {
            reveal_strlit("unknown failure");
        }
        if raw.as_str().is_empty() {
            BookPageError::ServerError(String::from_str("unknown failure"))
        } else {
            BookPageError::ServerError(raw)
        }
    }

    /// The status this failure is answered with under `policy`.
    pub fn status(&self, policy: ServerErrorPolicy) -> (code: u16)
        ensures
            code == self@.status(policy),
    {
        match self {
            BookPageError::InvalidId => STATUS_BAD_REQUEST,
            BookPageError::BookNotFound => STATUS_NOT_FOUND,
            BookPageError::ServerError(_) => match policy {
                ServerErrorPolicy::AsNotFound => STATUS_NOT_FOUND,
                ServerErrorPolicy::AsInternalError => STATUS_INTERNAL_ERROR,
            },
        }
    }

    /// The sentence shown to the reader for this failure.
    pub fn message(&self) -> (text: String)
        ensures
            text@ == self@.message(),
    {
        match self {
            BookPageError::InvalidId => String::from_str("Invalid book ID."),
            BookPageError::BookNotFound => String::from_str("Book not found."),
            BookPageError::ServerError(detail) => {
                let mut text = String::from_str("Server error: ");
                text.append(detail.as_str());
                text.append(".");
                text
            },
        }
    }

    /// Whether `self` and `other` are the same failure with the same detail.
    pub fn same_as(&self, other: &BookPageError) -> (b: bool)
        ensures
            b == (self@ == other@),
    {
        match (self, other) {
            (BookPageError::InvalidId, BookPageError::InvalidId) => true,
            (BookPageError::BookNotFound, BookPageError::BookNotFound) => true,
            (BookPageError::ServerError(a), BookPageError::ServerError(b)) => *a == *b,
            _ => false,
        }
    }

    /// A copy of this failure.
    pub fn duplicate(&self) -> (e: BookPageError)
        ensures
            e@ == self@,
    {
        match self {
            BookPageError::InvalidId => BookPageError::InvalidId,
            BookPageError::BookNotFound => BookPageError::BookNotFound,
            BookPageError::ServerError(detail) => BookPageError::ServerError(detail.clone()),
        }
    }
}

/// Every failure is answered with a client or server error status: a malformed
/// identifier with 400, a missing record with 404, and a failed record source
/// with the status that the policy names.
pub proof fn lemma_status_of_failure(e: Failure, policy: ServerErrorPolicy)
    ensures
        400 <= e.status(policy) < 600,
        e is InvalidId ==> e.status(policy) == 400,
        e is BookNotFound ==> e.status(policy) == 404,
        e is ServerError && policy == ServerErrorPolicy::AsNotFound ==> e.status(policy) == 404,
        e is ServerError && policy == ServerErrorPolicy::AsInternalError ==> e.status(policy)
            == 500,
{
}

/// The detail carried for a failed record source is never empty.
pub proof fn lemma_detail_never_empty(raw: Seq<char>)
    ensures
        normalized_detail(raw).len() > 0,
        Failure::ServerError(normalized_detail(raw)).wf(),
{
    reveal_strlit("unknown failure");
}

} // verus!
