//! The language front end of a small Unix shell: a character feeder with
//! scanners, a recursive-descent parser, the word expansion engine, the
//! arithmetic and conditional evaluators, and the decisions of the executor.
//! Everything here is verified; system calls are left to the caller, who hands
//! their outcomes in as plain values.

pub mod text;
pub mod shell;
pub mod feeder;
pub mod elements;
pub mod utils;
pub mod debuginfo;
pub mod elem_arg;
pub mod elem_command;
