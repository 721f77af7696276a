//! Error types of the lookup pipeline and of the blob store.
use vstd::prelude::*;

verus! {

/// Why a reference could not be turned into a passage.
#[derive(Debug, PartialEq, Eq)]
pub enum BibleLookupError {
    /// The text held no well-formed reference.
    NoRefs,
    /// The lookup service could not be reached; holds the transport's message.
    Request(String),
    /// The answer was not the JSON shape that the lookup expects.
    Parse,
    /// The answer's `type` was neither `"chapter"` nor `"verse"`.
    BadPassageType,
}

/// A result whose failure is a lookup error.
pub type BibleLookupResult<T> = Result<T, BibleLookupError>;

/// Why the blob store could not serve a request.
#[derive(Debug, PartialEq, Eq)]
pub enum S3AccessError {
    /// The named file could not be loaded.
    Load(String),
    /// The named file could not be saved.
    Save(String),
    /// The configuration file is not valid TOML; holds the parser's message.
    Parse(String),
}

/// A result whose failure is a blob-store error.
pub type S3AccessResult<T> = Result<T, S3AccessError>;

} // verus!
