//! The crate's error type.

use crate::gitio::git_error_message;
use vstd::prelude::*;

verus! {

/// An error of the synchronization engine: either an underlying
/// version-control failure, or a rule of this crate that an input breaks.
#[derive(Debug)]
pub enum RepoError {
    Git2(git2::Error),
    Validation(String),
}

impl RepoError {
    /// A human-readable description of the error.
    pub fn message(&self) -> (r: String)
        ensures
            self matches RepoError::Validation(m) ==> r@ == m@,
    {
        match self {
            RepoError::Git2(e) => git_error_message(e),
            RepoError::Validation(m) => m.clone(),
        }
    }
}

} // verus!
