//! The error type of indexing and search.

use crate::text::concat2;
use vstd::prelude::*;

verus! {

/// An error of input or output as `std::io` reports it. Nothing is known
/// of what it holds.
#[verifier::external_type_specification]
#[verifier::external_body]
pub struct ExIoError(std::io::Error);

/// What went wrong while indexing or searching.
#[derive(Debug)]
pub enum SearchError {
    /// The file system refused an action.
    Io(String),
    /// The request to the embedding service did not go through.
    Http(String),
    /// A response or a file held no valid JSON.
    Json(String),
    /// The embedding service refused, or answered with the wrong count.
    Embedding(String),
    /// The vector store refused, or was used before it was opened.
    VectorStore(String),
    /// Building or updating the index failed.
    Index(String),
    /// A search came before the index was built.
    IndexNotBuilt,
    /// No key for the embedding service is configured.
    ApiKeyMissing,
}

impl SearchError {
    /// The text shown to the user.
    pub open spec fn display(&self) -> Seq<char> {
        match self {
            SearchError::Io(m) => "IO error: "@ + m@,
            SearchError::Http(m) => "HTTP error: "@ + m@,
            SearchError::Json(m) => "JSON error: "@ + m@,
            SearchError::Embedding(m) => "Embedding error: "@ + m@,
            SearchError::VectorStore(m) => "Vector store error: "@ + m@,
            SearchError::Index(m) => "Index error: "@ + m@,
            SearchError::IndexNotBuilt => "Index not built. Build the search index first."@,
            SearchError::ApiKeyMissing => "API key is missing. Set EMBEDDING_API_KEY or OPENAI_API_KEY."@,
        }
    }

    /// The text shown to the user.
    pub fn message(&self) -> (m: String)
        ensures
            m@ == self.display(),
    {
        match self {
            SearchError::Io(m) => concat2("IO error: ", m.as_str()),
            SearchError::Http(m) => concat2("HTTP error: ", m.as_str()),
            SearchError::Json(m) => concat2("JSON error: ", m.as_str()),
            SearchError::Embedding(m) => concat2("Embedding error: ", m.as_str()),
            SearchError::VectorStore(m) => concat2("Vector store error: ", m.as_str()),
            SearchError::Index(m) => concat2("Index error: ", m.as_str()),
            SearchError::IndexNotBuilt => "Index not built. Build the search index first.".to_owned(),
            SearchError::ApiKeyMissing => "API key is missing. Set EMBEDDING_API_KEY or OPENAI_API_KEY.".to_owned(),
        }
    }
}

impl From<std::io::Error> for SearchError {
    /// An error of the file system, with its text.
    fn from(e: std::io::Error) -> (r: SearchError)
        ensures
            r is Io,
    {
        SearchError::Io(e.to_string())
    }
}

impl vstd::std_specs::convert::FromSpecImpl<std::io::Error> for SearchError {
    open spec fn obeys_from_spec() -> bool {
        false
    }

    open spec fn from_spec(e: std::io::Error) -> SearchError {
        arbitrary()
    }
}

} // verus!
