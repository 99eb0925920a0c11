//! The elements of the command tree, from scripts down to subwords.

pub mod word;
pub mod subword;
pub mod expr;
pub mod io;
pub mod calc;
pub mod command;
pub mod pipeline;
pub mod job;
pub mod script;
pub mod grammar;

use vstd::prelude::*;

verus! {

} // verus!
