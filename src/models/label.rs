use vstd::prelude::*;

use crate::models::validation::{is_valid_text, text_is_valid};

verus! {

/// A label, owned by one user; todo items refer to labels by id.
#[derive(Debug, PartialEq, Eq)]
pub struct Label {
    pub id: i32,
    pub name: String,
    pub user_id: i32,
}

impl Label {
    pub fn new(id: i32, name: String, user_id: i32) -> (r: Self)
        ensures
            r == (Label { id, name, user_id }),
    {
        Label { id, name, user_id }
    }
}

impl Clone for Label {
    fn clone(&self) -> (r: Self)
        ensures
            r == *self,
    {
        Label { id: self.id, name: self.name.clone(), user_id: self.user_id }
    }
}

/// The payload that creates a label; the owner is given beside it.
#[derive(Debug, PartialEq, Eq)]
pub struct CreateLabel {
    pub name: String,
}

impl CreateLabel {
    pub fn new(name: String) -> (r: Self)
        ensures
            r == (CreateLabel { name }),
    {
        CreateLabel { name }
    }

    /// The name must be non-empty and at most 100 characters long.
    pub fn validate(&self) -> (r: bool)
        ensures
            r == text_is_valid(self.name@),
    {
        is_valid_text(&self.name)
    }
}

/// A label as a client sends it back for a change of name.
#[derive(Debug, PartialEq, Eq)]
pub struct UpdateLabel {
    pub id: i32,
    pub name: String,
    pub user_id: i32,
}

/// What identifies a label to delete: its id and its owner.
#[derive(Debug, Clone, Copy, PartialEq, Eq)]
pub struct DeleteLabel {
    pub id: i32,
    pub user_id: i32,
}

impl DeleteLabel {
    pub fn new(id: i32, user_id: i32) -> (r: Self)
        ensures
            r == (DeleteLabel { id, user_id }),
    {
        DeleteLabel { id, user_id }
    }
}

} // verus!
