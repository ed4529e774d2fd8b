//! The failure taxonomy of the repository engine.

use vstd::prelude::*;

verus! {

/// Everything that can go wrong inside the engine.
///
/// Each variant carries enough context (a path, a digest, a volume or key
/// name) for the caller to act on; no failure is retried or swallowed.
#[derive(Debug, Clone, PartialEq)]
pub enum Error {
    /// A path, object or runtime volume does not exist.
    NotFound(String),
    /// A manifest or settings document failed to decode, or a key is unknown.
    Malformed(String),
    /// A storage-backend or collaborator failure.
    IOFailure(String),
    /// An attempt to commit while the repository holds nothing to commit.
    Conflict(String),
}

impl Error {
    /// The context string carried by the error.
    pub fn context(&self) -> (r: &String)
        ensures
            r@ == self.spec_context(),
    {
        match self {
            Error::NotFound(s) => s,
            Error::Malformed(s) => s,
            Error::IOFailure(s) => s,
            Error::Conflict(s) => s,
        }
    }

    /// The context string carried by the error.
    pub open spec fn spec_context(&self) -> Seq<char> {
        match self {
            Error::NotFound(s) => s@,
            Error::Malformed(s) => s@,
            Error::IOFailure(s) => s@,
            Error::Conflict(s) => s@,
        }
    }
}

/// The error returned when a string names no variant of an enumerated
/// setting, or no known settings key.
#[derive(Debug, Clone, PartialEq)]
pub struct VariantError {
    variant: String,
}

impl VariantError {
    /// The string that named no variant.
    pub closed spec fn spec_variant(&self) -> Seq<char> {
        self.variant@
    }

    pub fn new(value: &str) -> (r: VariantError)
        ensures
            r.spec_variant() == value@,
    {
        VariantError { variant: value.to_owned() }
    }

    /// The string that named no variant.
    pub fn variant(&self) -> (r: &String)
        ensures
            r@ == self.spec_variant(),
    {
        &self.variant
    }
}

} // verus!
