//! The error type of the catalog.

use crate::text::concat2;
use vstd::prelude::*;

verus! {

/// What went wrong in a catalog operation.
#[derive(Debug, Clone)]
pub enum CoreError {
    /// A path or a name failed normalisation or validation.
    InvalidInput(String),
    /// The folder or document is absent.
    NotFound(String),
    /// The target already exists, or a folder is not empty.
    Conflict(String),
    /// The file system refused an action.
    Io(String),
    /// The metadata store refused an action.
    Store(String),
}

/// The class of a [`CoreError`], without its text.
#[derive(Debug, Clone, Copy, PartialEq, Eq, Structural)]
pub enum ErrorKind {
    InvalidInput,
    NotFound,
    Conflict,
    Io,
    Store,
}

impl CoreError {
    /// The class of the error.
    pub open spec fn spec_kind(&self) -> ErrorKind {
        match self {
            CoreError::InvalidInput(_) => ErrorKind::InvalidInput,
            CoreError::NotFound(_) => ErrorKind::NotFound,
            CoreError::Conflict(_) => ErrorKind::Conflict,
            CoreError::Io(_) => ErrorKind::Io,
            CoreError::Store(_) => ErrorKind::Store,
        }
    }

    /// The text of the error.
    pub open spec fn text(&self) -> Seq<char> {
        match self {
            CoreError::InvalidInput(m) => m@,
            CoreError::NotFound(m) => m@,
            CoreError::Conflict(m) => m@,
            CoreError::Io(m) => m@,
            CoreError::Store(m) => m@,
        }
    }

    /// The text shown to the user: the text itself, behind a prefix for
    /// the two classes that come from outside the catalog.
    pub open spec fn display(&self) -> Seq<char> {
        match self {
            CoreError::Io(m) => "io error: "@ + m@,
            CoreError::Store(m) => "database error: "@ + m@,
            _ => self.text(),
        }
    }

    /// Whether the error has class `kind` and text `text`.
    pub open spec fn is(&self, kind: ErrorKind, text: Seq<char>) -> bool {
        self.spec_kind() == kind && self.text() == text
    }

    /// The class of the error.
    #[verifier::when_used_as_spec(spec_kind)]
    pub fn kind(&self) -> (k: ErrorKind)
        ensures
            k == self.spec_kind(),
    {
        match self {
            CoreError::InvalidInput(_) => ErrorKind::InvalidInput,
            CoreError::NotFound(_) => ErrorKind::NotFound,
            CoreError::Conflict(_) => ErrorKind::Conflict,
            CoreError::Io(_) => ErrorKind::Io,
            CoreError::Store(_) => ErrorKind::Store,
        }
    }

    /// The text shown to the user.
    pub fn message(&self) -> (m: String)
        ensures
            m@ == self.display(),
    {
        match self {
            CoreError::InvalidInput(m) => m.clone(),
            CoreError::NotFound(m) => m.clone(),
            CoreError::Conflict(m) => m.clone(),
            CoreError::Io(m) => concat2("io error: ", m.as_str()),
            CoreError::Store(m) => concat2("database error: ", m.as_str()),
        }
    }
}

impl From<std::io::Error> for CoreError {
    /// An error of the file system, with its text.
    fn from(e: std::io::Error) -> (r: CoreError)
        ensures
            r.spec_kind() == ErrorKind::Io,
    {
        CoreError::Io(e.to_string())
    }
}

impl vstd::std_specs::convert::FromSpecImpl<std::io::Error> for CoreError {
    open spec fn obeys_from_spec() -> bool {
        false
    }

    open spec fn from_spec(e: std::io::Error) -> CoreError {
        arbitrary()
    }
}

} // verus!
