//! Repositories: the graph queries of the service, one module per aggregate,
//! each verified against the [`crate::store::GraphStore`] model.  Failures are
//! classified per aggregate and every error kind knows its HTTP-equivalent
//! status class.

use vstd::prelude::*;

pub mod events;

pub mod users;

pub mod users_events;

verus! {

/// Cross-aggregate failure classification: a transport/protocol failure of
/// the store, or a domain condition outside the finer kinds.
#[derive(Debug)]
pub enum RepoError {
    /// The store itself failed; the payload renders the underlying cause.
    DatabaseError(String),
    /// Any other failure, rendered as text.
    Other(String),
}

/// Every error kind recommends an HTTP-equivalent status class.
pub trait ApiError {
    /// The status the error maps to.
    spec fn spec_status(&self) -> u16;

    /// Return the status class for this error.
    fn status(&self) -> (s: u16)
        ensures
            s == self.spec_status(),
    ;
}

impl ApiError for RepoError {
    open spec fn spec_status(&self) -> u16 {
        500
    }

    fn status(&self) -> (s: u16)
        ensures
            s == self.spec_status(),
    {
        match self {
            RepoError::DatabaseError(_) => 500,
            RepoError::Other(_) => 500,
        }
    }
}

impl RepoError {
    /// The text of the error.
    pub open spec fn spec_message(&self) -> Seq<char> {
        match self {
            RepoError::DatabaseError(c) => "Database error: "@ + c@,
            RepoError::Other(m) => "Error: "@ + m@,
        }
    }

    /// Render the error as text.
    pub fn message(&self) -> (m: String)
        ensures
            m@ == self.spec_message(),
    {
        match self {
            RepoError::DatabaseError(c) => "Database error: ".to_owned().concat(c.as_str()),
            RepoError::Other(m) => "Error: ".to_owned().concat(m.as_str()),
        }
    }
}

} // verus!
