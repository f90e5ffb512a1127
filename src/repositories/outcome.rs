//! What the persistent repositories decide from what the database returned:
//! the statements themselves are run by the caller.

use vstd::prelude::*;

use crate::models::todo::{TodoEntity, UpdateTodo};
use crate::models::user::User;
use crate::repositories::fold::{fold_entities, folded, TodoWithLabelFromRow};
use crate::repositories::RepositoryError;

verus! {

/// How a database statement failed.
#[derive(Debug, PartialEq, Eq)]
pub enum StoreFailure {
    /// A statement that must return a row returned none.
    RowNotFound,
    /// Any other failure, with its message.
    Other(String),
}

/// The repository error for a failed statement about the entity `id`.
pub fn classify_failure(id: i32, failure: StoreFailure) -> (r: RepositoryError)
    ensures
        r == match failure {
            StoreFailure::RowNotFound => RepositoryError::NotFound(id),
            StoreFailure::Other(m) => RepositoryError::Unexpected(m),
        },
{
    match failure {
        StoreFailure::RowNotFound => RepositoryError::NotFound(id),
        StoreFailure::Other(m) => RepositoryError::Unexpected(m),
    }
}

/// The outcome of a deletion of the entity `id` that removed
/// `rows_affected` rows: `NotFound` when it removed none.
pub fn removal_outcome(id: i32, rows_affected: u64) -> (r: Result<(), RepositoryError>)
    ensures
        r == if rows_affected == 0 {
            Err::<(), RepositoryError>(RepositoryError::NotFound(id))
        } else {
            Ok(())
        },
{
    if rows_affected == 0 {
        Err(RepositoryError::NotFound(id))
    } else {
        Ok(())
    }
}

/// The todo `id` from the rows of its join with its labels; `NotFound`
/// when there are none.
pub fn todo_from_rows(id: i32, rows: Vec<TodoWithLabelFromRow>) -> (r: Result<
    TodoEntity,
    RepositoryError,
>)
    ensures
        folded(rows@).len() == 0 ==> r == Err::<TodoEntity, RepositoryError>(
            RepositoryError::NotFound(id),
        ),
        folded(rows@).len() > 0 ==> r is Ok && r->Ok_0@ == folded(rows@)[0],
{
    let mut todos = fold_entities(rows);
    if todos.len() == 0 {
        Err(RepositoryError::NotFound(id))
    } else {
        assert(todos@[0]@ == folded(rows@)[0]);
        Ok(todos.swap_remove(0))
    }
}

/// Creating a user goes ahead only when no user has the name yet:
/// `Duplicate` with the id of the one that `existing` found.
pub fn check_name_free(existing: Option<User>) -> (r: Result<(), RepositoryError>)
    ensures
        r == match existing {
            Some(u) => Err::<(), RepositoryError>(RepositoryError::Duplicate(u.id)),
            None => Ok(()),
        },
{
    match existing {
        Some(u) => Err(RepositoryError::Duplicate(u.id)),
        None => Ok(()),
    }
}

/// The user that a lookup by name found; `NotFound` when it found none.
pub fn found_user(found: Option<User>) -> (r: Result<User, RepositoryError>)
    ensures
        r == match found {
            Some(u) => Ok::<User, RepositoryError>(u),
            None => Err(RepositoryError::NotFound(0)),
        },
{
    match found {
        Some(u) => Ok(u),
        None => Err(RepositoryError::NotFound(0)),
    }
}

/// The text and the completion flag that the todo `current` has after the
/// partial update `payload`: each one given replaces the current one.
pub fn merged_fields(current: &TodoEntity, payload: &UpdateTodo) -> (r: (String, bool))
    ensures
        r.0 == match payload.text {
            Some(t) => t,
            None => current.text,
        },
        r.1 == match payload.completed {
            Some(c) => c,
            None => current.completed,
        },
{
    let text = match &payload.text {
        Some(t) => t.clone(),
        None => current.text.clone(),
    };
    let completed = match payload.completed {
        Some(c) => c,
        None => current.completed,
    };
    (text, completed)
}

} // verus!
