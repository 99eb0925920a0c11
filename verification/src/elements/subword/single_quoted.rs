//! Single-quoted subwords.

use vstd::prelude::*;
use crate::feeder::Feeder;
use crate::feeder::FeederView;
use crate::feeder::scanner::single_quoted_length;
use crate::shell::ShellCore;

verus! {

/// `'...'`, the quotes included in the text.
#[derive(Debug)]
pub struct SingleQuotedSubword {
    pub text: String,
}

impl SingleQuotedSubword {
    pub fn new(s: &str) -> (sw: SingleQuotedSubword)
        ensures
            sw.text@ == s@,
    {
        SingleQuotedSubword { text: String::from_str(s) }
    }

    /// Takes the single-quoted subword with which the text begins.
    pub fn parse(feeder: &mut Feeder, core: &mut ShellCore) -> (r: Option<SingleQuotedSubword>)
        requires
            old(feeder)@.wf(),
        ensures
            *final(core) == *old(core),
            match r {
                Some(sw) => {
                    &&& single_quoted_length(old(feeder)@.remaining()) > 0
                    &&& sw.text@ == old(feeder)@.remaining().take(
                        single_quoted_length(old(feeder)@.remaining()) as int,
                    )
                    &&& final(feeder)@ == (FeederView {
                        pos: old(feeder)@.pos + sw.text@.len(),
                        ..old(feeder)@
                    })
                    &&& final(feeder)@.took(old(feeder)@, sw.text@)
                    &&& sw.text@.len() > 0
                },
                None => single_quoted_length(old(feeder)@.remaining()) == 0 && final(feeder)@
                    == old(feeder)@,
            },
    {
        let len = feeder.scanner_single_quoted_subword(core);
        if len == 0 {
            return None;
        }
        Some(SingleQuotedSubword { text: feeder.consume(len) })
    }
}

} // verus!
