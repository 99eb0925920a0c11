//! The tokens of arithmetic expressions.

use vstd::prelude::*;
use crate::elements::expr::arithmetic::ArithmeticExpr;
use crate::elements::expr::arithmetic::ExprView;
use crate::elements::word::Word;
use crate::elements::word::WordView;
use crate::text::to_chars;
use crate::text::chars_eq;
use crate::elements::word::word_view;
use crate::elements::expr::arithmetic::expr_view;

verus! {

#[derive(Debug)]
pub enum ArithElem {
    UnaryOp(String),
    BinaryOp(String),
    Integer(i64),
    /// A literal with a fraction, kept as it was written.
    Float(String),
    /// `? left : right`, each side an expression of its own.
    Ternary(Option<Box<ArithmeticExpr>>, Option<Box<ArithmeticExpr>>),
    /// A word and the number that a `++` or `--` after it adds.
    Word(Word, i64),
    /// A `++` or `--` in front of a name.
    Increment(i64),
    LeftParen,
    RightParen,
    /// Stands in reverse-Polish order after the left operand of `&&` or `||`.
    Delimiter(String),
}

/// A token as plain mathematical data.
pub enum ElemView {
    UnaryOp(Seq<char>),
    BinaryOp(Seq<char>),
    Integer(i64),
    Float(Seq<char>),
    Ternary(Option<Box<ExprView>>, Option<Box<ExprView>>),
    Word(WordView, i64),
    Increment(i64),
    LeftParen,
    RightParen,
    Delimiter(Seq<char>),
}

/// The views of a list of tokens.
pub open spec fn elem_views(v: Seq<ArithElem>) -> Seq<ElemView>
    decreases v,
{
    Seq::new(v.len(), |i: int| if 0 <= i < v.len() { elem_view(v[i]) } else { arbitrary() })
}

/// The view of one side of a conditional.
pub open spec fn side_view(side: Option<Box<ArithmeticExpr>>) -> Option<Box<ExprView>>
    decreases side,
{
    match side {
        Some(e) => Some(Box::new(expr_view(*e))),
        None => None,
    }
}

/// The view of a token.
pub open spec fn elem_view(e: ArithElem) -> ElemView
    decreases e,
{
    match e {
        ArithElem::UnaryOp(s) => ElemView::UnaryOp(s@),
        ArithElem::BinaryOp(s) => ElemView::BinaryOp(s@),
        ArithElem::Integer(n) => ElemView::Integer(n),
        ArithElem::Float(s) => ElemView::Float(s@),
        ArithElem::Ternary(l, r) => ElemView::Ternary(side_view(l), side_view(r)),
        ArithElem::Word(w, n) => ElemView::Word(word_view(w), n),
        ArithElem::Increment(n) => ElemView::Increment(n),
        ArithElem::LeftParen => ElemView::LeftParen,
        ArithElem::RightParen => ElemView::RightParen,
        ArithElem::Delimiter(s) => ElemView::Delimiter(s@),
    }
}

impl View for ArithElem {
    type V = ElemView;

    open spec fn view(&self) -> ElemView {
        elem_view(*self)
    }
}

/// A copy of a list of tokens.
pub fn duplicate_elems(v: &Vec<ArithElem>) -> (copy: Vec<ArithElem>)
    ensures
        elem_views(copy@) == elem_views(v@),
    decreases v,
{
    let mut copy: Vec<ArithElem> = Vec::new();
    let mut i: usize = 0;
    while i < v.len()
        invariant
            i <= v.len(),
            copy@.len() == i,
            forall|k: int| 0 <= k < i ==> copy@[k]@ == v@[k]@,
        decreases v.len() - i,
    {
        copy.push(v[i].duplicate());
        i += 1;
    }
    assert(elem_views(copy@) =~= elem_views(v@));
    copy
}

fn duplicate_side(side: &Option<Box<ArithmeticExpr>>) -> (copy: Option<Box<ArithmeticExpr>>)
    ensures
        side_view(copy) == side_view(*side),
    decreases side,
{
    match side {
        Some(e) => Some(Box::new(e.duplicate())),
        None => None,
    }
}

impl ArithElem {
    /// A copy of the token.
    pub fn duplicate(&self) -> (copy: ArithElem)
        ensures
            copy@ == self@,
        decreases self,
    {
        match self {
            ArithElem::UnaryOp(s) => ArithElem::UnaryOp(s.clone()),
            ArithElem::BinaryOp(s) => ArithElem::BinaryOp(s.clone()),
            ArithElem::Integer(n) => ArithElem::Integer(*n),
            ArithElem::Float(s) => ArithElem::Float(s.clone()),
            ArithElem::Ternary(l, r) => ArithElem::Ternary(duplicate_side(l), duplicate_side(r)),
            ArithElem::Word(w, n) => ArithElem::Word(w.duplicate(), *n),
            ArithElem::Increment(n) => ArithElem::Increment(*n),
            ArithElem::LeftParen => ArithElem::LeftParen,
            ArithElem::RightParen => ArithElem::RightParen,
            ArithElem::Delimiter(s) => ArithElem::Delimiter(s.clone()),
        }
    }
}


/// How tightly a binary operator binds; a name that is no operator binds
/// loosest of all.
pub open spec fn binary_precedence(op: Seq<char>) -> int {
    if op == "**"@ {
        13
    } else if op == "*"@ || op == "/"@ || op == "%"@ {
        12
    } else if op == "+"@ || op == "-"@ {
        11
    } else if op == "<<"@ || op == ">>"@ {
        10
    } else if op == "<"@ || op == "<="@ || op == ">"@ || op == ">="@ {
        9
    } else if op == "=="@ || op == "!="@ {
        8
    } else if op == "&"@ {
        7
    } else if op == "^"@ {
        6
    } else if op == "|"@ {
        5
    } else if op == "&&"@ {
        4
    } else if op == "||"@ {
        3
    } else if is_assignment(op) {
        1
    } else {
        0
    }
}

/// Whether `op` is `=` or one of the assignments that combine first.
pub open spec fn is_assignment(op: Seq<char>) -> bool {
    op == "="@ || op == "*="@ || op == "/="@ || op == "%="@ || op == "+="@ || op == "-="@ || op
        == "<<="@ || op == ">>="@ || op == "&="@ || op == "^="@ || op == "|="@
}

impl ElemView {
    /// A number, a literal or a word: what operators work on.
    pub open spec fn is_operand(self) -> bool {
        self is Integer || self is Float || self is Word
    }

    pub open spec fn is_operator(self) -> bool {
        self is UnaryOp || self is BinaryOp || self is Increment || self is Ternary
    }

    /// How tightly an operator binds: prefix operators tightest, then the
    /// binary operators by their table, the conditional between `||` and the
    /// assignments, the comma last.
    pub open spec fn precedence(self) -> int {
        match self {
            ElemView::UnaryOp(_) => 14,
            ElemView::Increment(_) => 14,
            ElemView::BinaryOp(op) => binary_precedence(op),
            ElemView::Ternary(_, _) => 2,
            _ => 0,
        }
    }

    /// Whether operators of this precedence group from the right: the prefix
    /// operators, `**`, the conditional and the assignments.
    pub open spec fn right_associative(self) -> bool {
        self.precedence() == 14 || self.precedence() == 13 || self.precedence() == 2
            || self.precedence() == 1
    }

    /// Whether this is the operator `&&` or `||`.
    pub open spec fn is_logical(self) -> bool {
        self matches ElemView::BinaryOp(op) && (op == "&&"@ || op == "||"@)
    }
}

fn is_lit(o: &Vec<char>, lit: &str) -> (b: bool)
    ensures
        b == (o@ == lit@),
{
    let l = to_chars(lit);
    chars_eq(o, &l)
}

/// Whether `op` is `=` or one of the assignments that combine first.
pub fn is_assignment_operator(op: &str) -> (b: bool)
    ensures
        b == is_assignment(op@),
{
    let o = to_chars(op);
    is_lit(&o, "=") || is_lit(&o, "*=") || is_lit(&o, "/=") || is_lit(&o, "%=") || is_lit(&o, "+=")
        || is_lit(&o, "-=") || is_lit(&o, "<<=") || is_lit(&o, ">>=") || is_lit(&o, "&=")
        || is_lit(&o, "^=") || is_lit(&o, "|=")
}

fn precedence_of_binary(op: &str) -> (p: u8)
    ensures
        p == binary_precedence(op@),
{
    let o = to_chars(op);
    if is_lit(&o, "**") {
        13
    } else if is_lit(&o, "*") || is_lit(&o, "/") || is_lit(&o, "%") {
        12
    } else if is_lit(&o, "+") || is_lit(&o, "-") {
        11
    } else if is_lit(&o, "<<") || is_lit(&o, ">>") {
        10
    } else if is_lit(&o, "<") || is_lit(&o, "<=") || is_lit(&o, ">") || is_lit(&o, ">=") {
        9
    } else if is_lit(&o, "==") || is_lit(&o, "!=") {
        8
    } else if is_lit(&o, "&") {
        7
    } else if is_lit(&o, "^") {
        6
    } else if is_lit(&o, "|") {
        5
    } else if is_lit(&o, "&&") {
        4
    } else if is_lit(&o, "||") {
        3
    } else if is_assignment_operator(op) {
        1
    } else {
        0
    }
}

impl ArithElem {
    /// How tightly the operator binds.
    pub fn order(&self) -> (p: u8)
        ensures
            p == self@.precedence(),
    {
        match self {
            ArithElem::UnaryOp(_) => 14,
            ArithElem::Increment(_) => 14,
            ArithElem::BinaryOp(op) => precedence_of_binary(op.as_str()),
            ArithElem::Ternary(_, _) => 2,
            _ => 0,
        }
    }

    pub fn is_operator(&self) -> (b: bool)
        ensures
            b == self@.is_operator(),
    {
        match self {
            ArithElem::UnaryOp(_) => true,
            ArithElem::Increment(_) => true,
            ArithElem::BinaryOp(_) => true,
            ArithElem::Ternary(_, _) => true,
            _ => false,
        }
    }

    /// Whether this is the operator `&&` or `||`.
    pub fn is_logical(&self) -> (b: bool)
        ensures
            b == self@.is_logical(),
    {
        match self {
            ArithElem::BinaryOp(op) => {
                let o = to_chars(op.as_str());
                is_lit(&o, "&&") || is_lit(&o, "||")
            },
            _ => false,
        }
    }
}

/// The text that stands for a token in a message.
pub open spec fn elem_text(e: ElemView) -> Seq<char> {
    match e {
        ElemView::UnaryOp(s) => s,
        ElemView::BinaryOp(s) => s,
        ElemView::Integer(n) => crate::text::decimal(n as int),
        ElemView::Float(s) => s,
        ElemView::Ternary(_, _) => "?"@,
        ElemView::Word(w, n) => w.text + if n == 1 {
            "++"@
        } else if n == -1 {
            "--"@
        } else {
            Seq::empty()
        },
        ElemView::Increment(n) => if n == 1 {
            "++"@
        } else {
            "--"@
        },
        ElemView::LeftParen => "("@,
        ElemView::RightParen => ")"@,
        ElemView::Delimiter(s) => s,
    }
}

/// Writes a token as it is shown in messages.
pub fn to_string(e: &ArithElem) -> (s: String)
    ensures
        s@ == elem_text(e@),
{
    match e {
        ArithElem::UnaryOp(s) => s.clone(),
        ArithElem::BinaryOp(s) => s.clone(),
        ArithElem::Integer(n) => crate::text::i64_to_string(*n),
        ArithElem::Float(s) => s.clone(),
        ArithElem::Ternary(_, _) => String::from_str("?"),
        ArithElem::Word(w, n) => {
            let mut s = w.text.clone();
            if *n == 1 {
                s.append("++");
            } else if *n == -1 {
                s.append("--");
            } else {
                assert(w.text@ + Seq::<char>::empty() =~= w.text@);
            }
            s
        },
        ArithElem::Increment(n) => if *n == 1 {
            String::from_str("++")
        } else {
            String::from_str("--")
        },
        ArithElem::LeftParen => String::from_str("("),
        ArithElem::RightParen => String::from_str(")"),
        ArithElem::Delimiter(s) => s.clone(),
    }
}

} // verus!
