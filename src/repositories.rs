pub mod fold;
pub mod label;
pub mod outcome;
pub mod todo;
pub mod user;

use vstd::prelude::*;

verus! {

/// The ways a repository operation fails.
#[derive(Debug, PartialEq, Eq)]
pub enum RepositoryError {
    /// A storage failure that is neither of the two below.
    Unexpected(String),
    /// No entity has the given id, or it belongs to another user.
    NotFound(i32),
    /// Creating would break a uniqueness rule; the id of the entity that is
    /// already there.
    Duplicate(i32),
}

} // verus!
