//! Arithmetic expressions as flat lists of tokens.

pub mod elem;
pub mod integer;
pub mod rev_polish;
pub mod word;
pub mod calculator;
pub mod parser;

use vstd::prelude::*;
use crate::elements::expr::arithmetic::elem::ArithElem;
use crate::elements::expr::arithmetic::elem::ElemView;
use crate::elements::expr::arithmetic::elem::elem_views;
use crate::elements::expr::arithmetic::elem::duplicate_elems;
use crate::elements::expr::arithmetic::elem::side_view;
use crate::elements::expr::arithmetic::calculator::calculate;
use crate::elements::subword::Parameter;
use crate::elements::subword::Subword;
use crate::elements::subword::SubwordView;
use crate::elements::word::Word;
use crate::elements::word::expansion::elem_resolved;
use crate::elements::word::expansion::elems_resolved;
use crate::elements::word::expansion::side_resolved;
use crate::elements::word::expansion::expr_value;
use crate::shell::ShellCore;
use crate::shell::CoreView;
use crate::text::decimal;
use crate::text::i64_to_string;

verus! {

/// An arithmetic expression as the parser leaves it.
#[derive(Debug)]
pub struct ArithmeticExpr {
    /// The source text.
    pub text: String,
    /// The tokens in source order.
    pub elements: Vec<ArithElem>,
    /// One `(` for each parenthesis that is open at the end of the tokens.
    pub paren_stack: Vec<char>,
}

/// An arithmetic expression as plain mathematical data.
pub struct ExprView {
    pub text: Seq<char>,
    pub elements: Seq<ElemView>,
    pub paren_stack: Seq<char>,
}

/// The view of an expression.
pub open spec fn expr_view(e: ArithmeticExpr) -> ExprView
    decreases e,
{
    ExprView { text: e.text@, elements: elem_views(e.elements@), paren_stack: e.paren_stack@ }
}

impl View for ArithmeticExpr {
    type V = ExprView;

    open spec fn view(&self) -> ExprView {
        expr_view(*self)
    }
}

impl ArithmeticExpr {
    /// A copy of the expression.
    pub fn duplicate(&self) -> (copy: ArithmeticExpr)
        ensures
            copy@ == self@,
        decreases self,
    {
        ArithmeticExpr {
            text: self.text.clone(),
            elements: duplicate_elems(&self.elements),
            paren_stack: self.paren_stack.clone(),
        }
    }
}

/// Once the replacement has failed on the first tokens, it fails on all.
proof fn lemma_resolution_fails(elems: Seq<ElemView>, n: int, st: CoreView)
    requires
        0 <= n <= elems.len(),
        elems_resolved(elems.take(n), st).0 is None,
    ensures
        elems_resolved(elems, st) == elems_resolved(elems.take(n), st),
    decreases elems.len() - n,
{
    if n < elems.len() {
        assert(elems.take(n + 1).drop_last() =~= elems.take(n));
        lemma_resolution_fails(elems, n + 1, st);
    } else {
        assert(elems.take(n) =~= elems);
    }
}

/// Replaces the words in the tokens by what they stand for.
pub fn resolve_elems(elements: &Vec<ArithElem>, core: &mut ShellCore) -> (r: Option<Vec<ArithElem>>)
    ensures
        final(core)@ == elems_resolved(elem_views(elements@), old(core)@).1,
        match elems_resolved(elem_views(elements@), old(core)@).0 {
            Some(done) => r matches Some(out) && elem_views(out@) == done,
            None => r is None,
        },
    decreases elements,
{
    let mut out: Vec<ArithElem> = Vec::new();
    let mut i: usize = 0;
    let ghost elems = elem_views(elements@);
    let ghost start = old(core)@;
    assert(elems.take(0) =~= Seq::<ElemView>::empty());
    assert(elem_views(out@) =~= Seq::<ElemView>::empty());
    while i < elements.len()
        invariant
            i <= elements.len(),
            elems == elem_views(elements@),
            start == old(core)@,
            elems_resolved(elems.take(i as int), start) == (Some(elem_views(out@)), core@),
        decreases elements.len() - i,
    {
        proof {
            assert(elems.take(i + 1).drop_last() =~= elems.take(i as int));
            assert(elems.take(i + 1).last() == elements@[i as int]@);
        }
        let ghost before = elem_views(out@);
        let ghost mid = core@;
        match elements[i].resolve(core) {
            Some(e) => {
                out.push(e);
                assert(elem_views(out@) =~= before.push(e@));
            },
            None => {
                proof {
                    assert(elem_resolved(elems.take(i + 1).last(), mid).0 is None);
                    assert(elems_resolved(elems.take(i + 1), start) == (
                        None::<Seq<ElemView>>,
                        core@,
                    ));
                    lemma_resolution_fails(elems, i + 1, start);
                }
                return None;
            },
        }
        i += 1;
    }
    assert(elems.take(i as int) =~= elems);
    Some(out)
}

fn resolve_side(side: &Option<Box<ArithmeticExpr>>, core: &mut ShellCore) -> (r: Option<
    Option<Box<ArithmeticExpr>>,
>)
    ensures
        final(core)@ == side_resolved(side_view(*side), old(core)@).1,
        match side_resolved(side_view(*side), old(core)@).0 {
            Some(done) => r matches Some(out) && side_view(out) == done,
            None => r is None,
        },
    decreases side,
{
    match side {
        None => Some(None),
        Some(expr) => match resolve_elems(&expr.elements, core) {
            Some(elements) => Some(
                Some(
                    Box::new(
                        ArithmeticExpr {
                            text: expr.text.clone(),
                            elements,
                            paren_stack: expr.paren_stack.clone(),
                        },
                    ),
                ),
            ),
            None => None,
        },
    }
}

impl ArithElem {
    /// Replaces the words in the token by what they stand for.
    pub fn resolve(&self, core: &mut ShellCore) -> (r: Option<ArithElem>)
        ensures
            final(core)@ == elem_resolved(self@, old(core)@).1,
            match elem_resolved(self@, old(core)@).0 {
                Some(done) => r matches Some(out) && out@ == done,
                None => r is None,
            },
        decreases self,
    {
        match self {
            ArithElem::Word(w, inc) => match w.eval_as_value(core) {
                Some(text) => {
                    let mut subwords: Vec<Subword> = Vec::new();
                    subwords.push(Subword::Parameter(Parameter { text: text.clone() }));
                    let word = Word { text, subwords };
                    assert(word@.subwords =~= seq![SubwordView::Parameter(word@.text)]);
                    Some(ArithElem::Word(word, *inc))
                },
                None => None,
            },
            ArithElem::Ternary(left, right) => {
                let l = match resolve_side(left, core) {
                    Some(l) => l,
                    None => {
                        return None;
                    },
                };
                match resolve_side(right, core) {
                    Some(r) => Some(ArithElem::Ternary(l, r)),
                    None => None,
                }
            },
            _ => Some(self.duplicate()),
        }
    }
}

impl ArithmeticExpr {
    /// Evaluates the expression: first every word in it is replaced by what
    /// it stands for, then the tokens are evaluated. The result is the value in
    /// decimal notation, or the message of the error.
    pub fn eval(&self, core: &mut ShellCore) -> (r: Result<String, String>)
        ensures
            final(core)@ == expr_value(self@, old(core)@).1,
            match expr_value(self@, old(core)@).0 {
                Ok(n) => r matches Ok(text) && text@ == decimal(n as int),
                Err(m) => r matches Err(msg) && msg@ == m,
            },
        decreases self,
    {
        let elements = match resolve_elems(&self.elements, core) {
            Some(done) => done,
            None => {
                let mut msg = self.text.clone();
                msg.append(": wrong substitution");
                return Err(msg);
            },
        };
        match calculate(&elements, core) {
            Ok(ArithElem::Integer(n)) => Ok(i64_to_string(n)),
            Ok(_) => Err(String::from_str("invalid operand")),
            Err(msg) => Err(msg),
        }
    }
}

} // verus!
