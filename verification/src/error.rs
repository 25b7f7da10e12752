//! Why a unit of work stopped.

use vstd::prelude::*;

verus! {

/// The causes of failure, told apart so that a caller can decide what to do
/// next.
#[derive(Debug, PartialEq, Eq)]
pub enum SyncError {
    /// A setting is missing or unusable: the credential, the place of the
    /// cache.
    Configuration(String),
    /// The remote could not be reached or did not answer.
    Transport(String),
    /// The remote answered with something that is no list of issues; `body`
    /// is what it sent.
    Decode { detail: String, body: String },
    /// The repository is not tracked.
    NotFound,
    /// The repository is tracked already.
    Conflict,
    /// The cache cannot take another row.
    Store,
}

impl SyncError {
    /// Whether nothing more should be attempted in this invocation. Only a
    /// configuration error ends it; every other error ends the work on one
    /// repository and leaves the others to be tried.
    pub fn ends_invocation(&self) -> (r: bool)
        ensures
            r == (*self is Configuration),
    {
        match self {
            SyncError::Configuration(_) => true,
            _ => false,
        }
    }
}

} // verus!
