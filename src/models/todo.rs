use vstd::prelude::*;

use crate::models::label::Label;
use crate::models::validation::{is_valid_text, text_is_valid};

verus! {

/// A todo item together with the labels associated with it.
#[derive(Debug, PartialEq, Eq)]
pub struct TodoEntity {
    pub id: i32,
    pub text: String,
    pub completed: bool,
    pub labels: Vec<Label>,
    pub user_id: i32,
}

/// What a `TodoEntity` holds, with its labels as a sequence.
pub struct TodoView {
    pub id: i32,
    pub text: String,
    pub completed: bool,
    pub labels: Seq<Label>,
    pub user_id: i32,
}

impl View for TodoEntity {
    type V = TodoView;

    open spec fn view(&self) -> TodoView {
        TodoView {
            id: self.id,
            text: self.text,
            completed: self.completed,
            labels: self.labels@,
            user_id: self.user_id,
        }
    }
}

impl TodoEntity {
    /// A todo that is not completed yet.
    pub fn new(id: i32, text: String, labels: Vec<Label>, user_id: i32) -> (r: Self)
        ensures
            r@ == (TodoView { id, text, completed: false, labels: labels@, user_id }),
    {
        TodoEntity { id, text, completed: false, labels, user_id }
    }
}

impl Clone for TodoEntity {
    fn clone(&self) -> (r: Self)
        ensures
            r@ == self@,
    {
        let labels = self.labels.clone();
        assert(labels@ =~= self.labels@);
        TodoEntity {
            id: self.id,
            text: self.text.clone(),
            completed: self.completed,
            labels,
            user_id: self.user_id,
        }
    }
}

/// The payload that creates a todo item: its text, the ids of the labels to
/// associate with it, and its owner.
#[derive(Debug, PartialEq, Eq)]
pub struct CreateTodo {
    pub text: String,
    pub label_ids: Vec<i32>,
    pub user_id: i32,
}

impl CreateTodo {
    pub fn new(text: String, label_ids: Vec<i32>, user_id: i32) -> (r: Self)
        ensures
            r == (CreateTodo { text, label_ids, user_id }),
    {
        CreateTodo { text, label_ids, user_id }
    }

    /// The text must be non-empty and at most 100 characters long.
    pub fn validate(&self) -> (r: bool)
        ensures
            r == text_is_valid(self.text@),
    {
        is_valid_text(&self.text)
    }
}

/// A partial update of a todo item: each field that is `None` keeps its
/// current value. `label_ids`, when given, replaces the whole association.
#[derive(Debug, PartialEq, Eq)]
pub struct UpdateTodo {
    pub text: Option<String>,
    pub completed: Option<bool>,
    pub label_ids: Option<Vec<i32>>,
}

impl UpdateTodo {
    /// A text, when one is given, must be non-empty and at most 100
    /// characters long.
    pub fn validate(&self) -> (r: bool)
        ensures
            r == match self.text {
                Some(t) => text_is_valid(t@),
                None => true,
            },
    {
        match &self.text {
            Some(t) => is_valid_text(t),
            None => true,
        }
    }
}

} // verus!
