//! Users, labels and todo items: the entity model, the in-memory
//! repositories, the decisions that the persistent repositories make on what
//! the database returned, and the fold that rebuilds todo aggregates from the
//! rows of a todo/label join.

pub mod models;
pub mod repositories;
