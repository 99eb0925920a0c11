//! The state of the line that is being edited on the terminal.

pub mod completion;

use vstd::prelude::*;

verus! {

#[derive(Debug)]
pub struct Terminal {
    /// The prompt in front of the line.
    pub prompt: String,
    /// The prompt and the line, character by character.
    pub chars: Vec<char>,
    /// Where the cursor stands among the characters.
    pub head: usize,
    /// The `~/` that the user wrote, where the word being completed began with
    /// it; else empty.
    pub tilde_prefix: String,
    /// What the `~/` stands for; empty where there is none.
    pub tilde_path: String,
}

} // verus!
