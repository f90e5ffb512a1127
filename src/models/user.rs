use vstd::prelude::*;

use crate::models::validation::{is_valid_text, text_is_valid};

verus! {

/// A user: the owner of labels and todo items.
#[derive(Debug, PartialEq, Eq)]
pub struct User {
    pub id: i32,
    pub name: String,
}

impl User {
    pub fn new(id: i32, name: String) -> (r: Self)
        ensures
            r == (User { id, name }),
    {
        User { id, name }
    }
}

impl Clone for User {
    fn clone(&self) -> (r: Self)
        ensures
            r == *self,
    {
        User { id: self.id, name: self.name.clone() }
    }
}

/// The user on whose behalf a request is made, as its query string names it.
#[derive(Debug, Clone, Copy, PartialEq, Eq)]
pub struct UserIdQuery {
    pub user_id: i32,
}

/// The payload that creates a user.
#[derive(Debug, PartialEq, Eq)]
pub struct CreateUser {
    pub name: String,
}

impl CreateUser {
    pub fn new(name: String) -> (r: Self)
        ensures
            r == (CreateUser { name }),
    {
        CreateUser { name }
    }

    /// The name must be non-empty and at most 100 characters long.
    pub fn validate(&self) -> (r: bool)
        ensures
            r == text_is_valid(self.name@),
    {
        is_valid_text(&self.name)
    }
}

impl Clone for CreateUser {
    fn clone(&self) -> (r: Self)
        ensures
            r == *self,
    {
        CreateUser { name: self.name.clone() }
    }
}

} // verus!
