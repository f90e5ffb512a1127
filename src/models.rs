pub mod label;
pub mod todo;
pub mod user;
pub mod validation;
