//! Errors of compaction.

use vstd::prelude::*;

verus! {

/// What can go wrong while a document is compacted.
#[derive(Clone, Copy, PartialEq, Eq, Structural, Hash, Debug)]
pub enum Error {
    /// An IRI that was to be made relative is not well formed.
    InvalidIriRef,
    /// A nested local context could not be processed.
    InvalidLocalContext,
    /// A remote context could not be retrieved.
    LoadingFailed,
    /// A local context tried to replace a protected term.
    ProtectedTermRedefinition,
    /// A list stands directly inside a list.
    CompactionToListOfLists,
    /// A reverse property term has a container mapping that forbids it.
    InvalidReversePropertyMap,
    /// The document breaks the rules of the expanded form.
    UnexpectedObjectShape,
}

impl Error {
    /// The name of the error.
    pub fn name(&self) -> (r: &'static str)
        ensures
            r@ == error_name(*self),
    {
        match self {
            Error::InvalidIriRef => "invalid IRI reference",
            Error::InvalidLocalContext => "invalid local context",
            Error::LoadingFailed => "loading document failed",
            Error::ProtectedTermRedefinition => "protected term redefinition",
            Error::CompactionToListOfLists => "compaction to list of lists",
            Error::InvalidReversePropertyMap => "invalid reverse property map",
            Error::UnexpectedObjectShape => "unexpected object shape",
        }
    }
}

/// The name of an error.
pub open spec fn error_name(e: Error) -> Seq<char> {
    match e {
        Error::InvalidIriRef => "invalid IRI reference"@,
        Error::InvalidLocalContext => "invalid local context"@,
        Error::LoadingFailed => "loading document failed"@,
        Error::ProtectedTermRedefinition => "protected term redefinition"@,
        Error::CompactionToListOfLists => "compaction to list of lists"@,
        Error::InvalidReversePropertyMap => "invalid reverse property map"@,
        Error::UnexpectedObjectShape => "unexpected object shape"@,
    }
}

} // verus!
