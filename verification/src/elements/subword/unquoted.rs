//! Unquoted subwords.

use vstd::prelude::*;
use crate::feeder::Feeder;
use crate::feeder::FeederView;
use crate::feeder::scanner::token_length;
use crate::shell::ShellCore;

verus! {

/// A backslash with the character behind it, a one-character symbol, or a
/// run of ordinary characters.
#[derive(Debug)]
pub struct UnquotedSubword {
    pub text: String,
}

impl UnquotedSubword {
    pub fn new(s: &str) -> (sw: UnquotedSubword)
        ensures
            sw.text@ == s@,
    {
        UnquotedSubword { text: String::from_str(s) }
    }

    /// Takes the unquoted subword with which the text begins.
    pub fn parse(feeder: &mut Feeder, core: &mut ShellCore) -> (r: Option<UnquotedSubword>)
        requires
            old(feeder)@.wf(),
        ensures
            *final(core) == *old(core),
            match r {
                Some(sw) => {
                    &&& token_length(old(feeder)@.remaining()) > 0
                    &&& sw.text@ == old(feeder)@.remaining().take(
                        token_length(old(feeder)@.remaining()) as int,
                    )
                    &&& final(feeder)@ == (FeederView {
                        pos: old(feeder)@.pos + sw.text@.len(),
                        ..old(feeder)@
                    })
                    &&& final(feeder)@.took(old(feeder)@, sw.text@)
                    &&& sw.text@.len() > 0
                    &&& sw.text@.len() == token_length(old(feeder)@.remaining())
                },
                None => token_length(old(feeder)@.remaining()) == 0 && final(feeder)@ == old(
                    feeder,
                )@,
            },
    {
        let mut len = feeder.scanner_escaped_char(core);
        if len == 0 {
            len = feeder.scanner_subword_symbol();
        }
        if len == 0 {
            len = feeder.scanner_unquoted_subword();
        }
        if len == 0 {
            return None;
        }
        Some(UnquotedSubword { text: feeder.consume(len) })
    }
}

} // verus!
