//! Intermediate representation and the passes that produce it.

pub mod lower;
pub mod monomorphize;
pub mod types;
