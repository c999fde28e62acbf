//! The failures the engine can surface.

use vstd::prelude::*;

verus! {

/// Why a run failed. Configuration and repository-access failures are
/// fatal and carry no partial output; recoverable conditions (a tag whose
/// text is no version, a malformed commit message) never surface here.
#[derive(Clone, Copy, Debug, PartialEq, Eq, Structural)]
pub enum EngineError {
    /// A `KEY=value` argument holds no `=`.
    InvalidKeyValue,
    /// The compiled extraction pattern is not valid regular-expression
    /// syntax.
    InvalidPattern,
    /// The repository's tags could not be enumerated.
    TagEnumeration,
    /// A revision string resolved to nothing.
    UnresolvableRevision,
    /// The commit range could not be walked.
    WalkFailure,
    /// A commit could not be diffed against its parent.
    DiffFailure,
    /// A visited commit's message is not valid text.
    UnreadableMessage,
}

/// The wording of each failure.
pub open spec fn spec_describe(e: EngineError) -> Seq<char> {
    match e {
        EngineError::InvalidKeyValue => "invalid KEY=value: no `=` found"@,
        EngineError::InvalidPattern => "template compiles to an invalid pattern"@,
        EngineError::TagEnumeration => "cannot enumerate repository tags"@,
        EngineError::UnresolvableRevision => "cannot resolve revision"@,
        EngineError::WalkFailure => "cannot walk the commit range"@,
        EngineError::DiffFailure => "cannot diff a commit against its parent"@,
        EngineError::UnreadableMessage => "a commit message is not valid text"@,
    }
}

impl EngineError {
    /// A short description of the failure.
    pub fn describe(&self) -> (m: String)
        ensures
            m@ == spec_describe(*self),
    {
        match self {
            EngineError::InvalidKeyValue => "invalid KEY=value: no `=` found".to_owned(),
            EngineError::InvalidPattern => "template compiles to an invalid pattern".to_owned(),
            EngineError::TagEnumeration => "cannot enumerate repository tags".to_owned(),
            EngineError::UnresolvableRevision => "cannot resolve revision".to_owned(),
            EngineError::WalkFailure => "cannot walk the commit range".to_owned(),
            EngineError::DiffFailure => "cannot diff a commit against its parent".to_owned(),
            EngineError::UnreadableMessage => "a commit message is not valid text".to_owned(),
        }
    }
}

} // verus!
