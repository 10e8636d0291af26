//! Stable, backend-neutral error categories and the library's error value.

use vstd::prelude::*;
use vstd::string::StringExecFns;

verus! {

/// Stable categories callers may branch on without learning which backend failed.
#[derive(Clone, Copy, Debug, PartialEq, Eq, Hash, Structural)]
#[non_exhaustive]
pub enum ErrorKind {
    /// An argument or encoded value is not valid.
    InvalidInput,
    /// No compatible reader is attached.
    NoReader,
    /// A reader exists but has no card present.
    CardAbsent,
    /// The card was removed while an operation was in progress.
    CardGone,
    /// Another process or transaction currently owns the resource.
    Busy,
    /// The process lacks permission to open the reader.
    PermissionDenied,
    /// The operation did not finish before its deadline.
    Timeout,
    /// A pending observation was cancelled.
    Cancelled,
    /// The selected backend is unavailable in this build or on this platform.
    BackendUnavailable,
    /// The transport failed without a more specific portable classification.
    Transport,
    /// Bytes received from a reader or card violate the active protocol.
    Protocol,
    /// The reader or backend does not implement the requested capability.
    NotSupported,
}

/// The default, display-ready description of each category.
pub open spec fn kind_description(kind: ErrorKind) -> Seq<char> {
    match kind {
        ErrorKind::InvalidInput => "invalid input"@,
        ErrorKind::NoReader => "no compatible reader"@,
        ErrorKind::CardAbsent => "card absent"@,
        ErrorKind::CardGone => "card removed"@,
        ErrorKind::Busy => "resource busy"@,
        ErrorKind::PermissionDenied => "permission denied"@,
        ErrorKind::Timeout => "operation timed out"@,
        ErrorKind::Cancelled => "operation cancelled"@,
        ErrorKind::BackendUnavailable => "backend unavailable"@,
        ErrorKind::Transport => "transport failure"@,
        ErrorKind::Protocol => "protocol failure"@,
        ErrorKind::NotSupported => "operation not supported"@,
    }
}

/// The categories after which retrying, once the user or environment changed, can succeed.
pub open spec fn kind_is_retryable(kind: ErrorKind) -> bool {
    match kind {
        ErrorKind::NoReader | ErrorKind::CardAbsent | ErrorKind::CardGone | ErrorKind::Busy
        | ErrorKind::PermissionDenied | ErrorKind::Timeout | ErrorKind::Cancelled => true,
        _ => false,
    }
}

impl ErrorKind {
    /// The category's default description.
    pub fn description(self) -> (text: &'static str)
        ensures
            text@ == kind_description(self),
    {
        match self {
            ErrorKind::InvalidInput => "invalid input",
            ErrorKind::NoReader => "no compatible reader",
            ErrorKind::CardAbsent => "card absent",
            ErrorKind::CardGone => "card removed",
            ErrorKind::Busy => "resource busy",
            ErrorKind::PermissionDenied => "permission denied",
            ErrorKind::Timeout => "operation timed out",
            ErrorKind::Cancelled => "operation cancelled",
            ErrorKind::BackendUnavailable => "backend unavailable",
            ErrorKind::Transport => "transport failure",
            ErrorKind::Protocol => "protocol failure",
            ErrorKind::NotSupported => "operation not supported",
        }
    }
}

/// A backend-neutral error with stable classification and useful diagnostic context.
#[derive(Clone, Debug)]
pub struct Error {
    kind: ErrorKind,
    message: String,
}

impl Error {
    /// The error's category.
    pub closed spec fn category(&self) -> ErrorKind {
        self.kind
    }

    /// The error's display-ready context.
    pub closed spec fn text(&self) -> Seq<char> {
        self.message@
    }

    /// Construct an error using the category's default message.
    pub fn from_kind(kind: ErrorKind) -> (error: Self)
        ensures
            error.category() == kind,
            error.text() == kind_description(kind),
    {
        Self::new(kind, kind.description())
    }

    /// Construct an error with portable, display-ready context.
    pub fn new(kind: ErrorKind, message: &str) -> (error: Self)
        ensures
            error.category() == kind,
            error.text() == message@,
    {
        Error { kind, message: message.to_owned() }
    }

    /// Construct an error from an owned message.
    pub fn with_message(kind: ErrorKind, message: String) -> (error: Self)
        ensures
            error.category() == kind,
            error.text() == message@,
    {
        Error { kind, message }
    }

    /// Construct an error whose message puts `context` before the detail of a lower-level
    /// failure: `context: detail`.
    pub fn contextual(kind: ErrorKind, context: &str, detail: &str) -> (error: Self)
        ensures
            error.category() == kind,
            error.text() == context@ + ": "@ + detail@,
    {
        let mut message = context.to_owned();
        message.append(": ");
        message.append(detail);
        proof {
            reveal_strlit(": ");
        }
        Error { kind, message }
    }

    /// Return the stable category intended for programmatic decisions.
    pub fn kind(&self) -> (kind: ErrorKind)
        ensures
            kind == self.category(),
    {
        self.kind
    }

    /// Return the portable, display-ready context.
    pub fn message(&self) -> (message: &str)
        ensures
            message@ == self.text(),
    {
        self.message.as_str()
    }

    /// Whether retrying after a user or environment change can reasonably succeed.
    pub fn is_retryable(&self) -> (retryable: bool)
        ensures
            retryable == kind_is_retryable(self.category()),
    {
        match self.kind {
            ErrorKind::NoReader | ErrorKind::CardAbsent | ErrorKind::CardGone | ErrorKind::Busy
            | ErrorKind::PermissionDenied | ErrorKind::Timeout | ErrorKind::Cancelled => true,
            _ => false,
        }
    }
}

/// The result type returned by ccidkit operations.
pub type Result<T> = std::result::Result<T, Error>;

/// Whether `result` failed with an error of category `kind`.
pub open spec fn fails_with<T>(result: Result<T>, kind: ErrorKind) -> bool {
    result is Err && result->Err_0.category() == kind
}

} // verus!
