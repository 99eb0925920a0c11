//! Helpers that belong to no element of the language.

pub mod file_check;
pub mod glob;
