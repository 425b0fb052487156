//! Error kinds surfaced by the gateway core.

use vstd::prelude::*;

verus! {

/// The specific kind of error that can occur.
#[derive(Clone, Debug, PartialEq, Eq)]
pub enum ErrorKind {
    /// A serialization / deserialization error.
    SerdeError(String),
    /// A non-success status from the upstream API.
    Http(u16),
    /// A file name that no platform rule recognises.
    UnknownPlatform(String),
    /// A tag or path segment that is not a semantic version.
    InvalidVersion,
    /// A `Link` header entry that does not follow the grammar.
    InvalidLinkHeader,
    /// No asset satisfies the query.
    NoCompatibleVersionFound,
    /// An unknown error.
    Unknown,
}

/// An error that can occur while talking to the upstream API.
#[derive(Clone, Debug)]
pub struct Error {
    inner: ErrorKind,
}

impl Error {
    /// The kind carried by this error.
    pub closed spec fn kind_of(&self) -> ErrorKind {
        self.inner
    }

    pub fn new(kind: ErrorKind) -> (r: Error)
        ensures
            r.kind_of() == kind,
    {
        Error { inner: kind }
    }

    /// Return the kind of this error.
    pub fn kind(&self) -> (r: &ErrorKind)
        ensures
            *r == self.kind_of(),
    {
        &self.inner
    }
}

} // verus!
