//! Expressions: arithmetic and conditional.

pub mod arithmetic;
pub mod conditional;
