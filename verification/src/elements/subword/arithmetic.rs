//! Arithmetic substitution.

use vstd::prelude::*;
use crate::elements::grammar::arithmetic_inside;
use crate::elements::expr::arithmetic::ArithmeticExpr;
use crate::elements::expr::arithmetic::ExprView;
use crate::elements::grammar::arithmetic_end;
use crate::elements::grammar::ended;
use crate::feeder::Feeder;
use crate::feeder::lemma_took_twice;
use crate::shell::ShellCore;

verus! {

/// `$(( ... ))`: the text with the dollar and the parentheses, and the
/// expression between them.
#[derive(Debug)]
pub struct Arithmetic {
    pub text: String,
    pub expr: ArithmeticExpr,
}

impl Arithmetic {
    /// The text is the text of the expression between `$((` and `))`.
    pub open spec fn wf(text: Seq<char>, expr: ExprView) -> bool {
        text == "$(("@ + expr.text + "))"@
    }

    /// Takes the arithmetic substitution with which the text begins.
    pub fn parse(feeder: &mut Feeder, core: &mut ShellCore) -> (r: Option<Arithmetic>)
        requires
            old(feeder)@.wf(),
        ensures
            *final(core) == *old(core),
            arithmetic_end(old(feeder)@.chars, old(feeder)@.cursor()) == ended(
                r is Some,
                final(feeder)@,
            ),
            match r {
                Some(sw) => final(feeder)@.took(old(feeder)@, sw.text@) && Self::wf(
                    sw.text@,
                    sw.expr@,
                ) && sw.text@.len() > 0 && sw.expr@ == arithmetic_inside(
                    old(feeder)@.chars,
                    old(feeder)@.cursor(),
                ),
                None => final(feeder)@ == old(feeder)@,
            },
        decreases old(feeder)@.left(), old(feeder)@.unfed(), 1nat,
    {
        proof {
            reveal(arithmetic_end);
            reveal(arithmetic_inside);
            reveal_strlit("$((");
            reveal_strlit("))");
        }
        if !feeder.starts_with("$((") {
            return None;
        }
        let pos = feeder.pos;
        let limit = feeder.limit;
        let ghost start = feeder@;
        let mut text = feeder.consume(3);
        let ghost opened = feeder@;
        let expr = ArithmeticExpr::parse(feeder, core);
        let ghost inside = feeder@;
        match expr {
            Some(expr) => {
                if feeder.starts_with("))") {
                    text.append(expr.text.as_str());
                    let close = feeder.consume(2);
                    text.append(close.as_str());
                    proof {
                        lemma_took_twice(start, opened, inside);
                        lemma_took_twice(start, inside, feeder@);
                        assert(text@ =~= "$(("@ + expr@.text + "))"@);
                    }
                    return Some(Arithmetic { text, expr });
                }
                feeder.reset(pos, limit);
                None
            },
            None => {
                feeder.reset(pos, limit);
                None
            },
        }
    }
}

} // verus!
