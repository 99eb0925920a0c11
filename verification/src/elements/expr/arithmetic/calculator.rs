//! The evaluation of an expression in reverse-Polish order on a stack.

use vstd::prelude::*;
use crate::elements::expr::arithmetic::ArithmeticExpr;
use crate::elements::expr::arithmetic::ExprView;
use crate::elements::expr::arithmetic::elem::ArithElem;
use crate::elements::expr::arithmetic::elem::ElemView;
use crate::elements::expr::arithmetic::elem::elem_views;
use crate::elements::expr::arithmetic::elem::elem_text;
use crate::elements::expr::arithmetic::elem::is_assignment;
use crate::elements::expr::arithmetic::integer::binary_value;
use crate::elements::expr::arithmetic::integer::binary_error;
use crate::elements::expr::arithmetic::integer::compound_value;
use crate::elements::expr::arithmetic::integer::compound_error;
use crate::elements::expr::arithmetic::integer::unary_value;
use crate::elements::expr::arithmetic::rev_polish::rearranged;
use crate::elements::expr::arithmetic::rev_polish::Yard;
use crate::elements::expr::arithmetic::rev_polish::feed;
use crate::elements::expr::arithmetic::rev_polish::feed_all;
use crate::elements::expr::arithmetic::rev_polish::unwind;
use crate::elements::expr::arithmetic::rev_polish::close;
use crate::elements::expr::arithmetic::rev_polish::drain;
use crate::elements::expr::arithmetic::word::is_name;
use crate::elements::expr::arithmetic::word::operand_error;
use crate::elements::expr::arithmetic::word::variable_number;
use crate::elements::expr::arithmetic::word::word_operand;
use crate::elements::expr::arithmetic::elem::side_view;
use crate::elements::expr::arithmetic::elem::is_assignment_operator;
use crate::elements::expr::arithmetic::elem::to_string;
use crate::elements::expr::arithmetic::integer::binary_operation;
use crate::elements::expr::arithmetic::integer::substitute;
use crate::elements::expr::arithmetic::integer::unary_calc;
use crate::elements::expr::arithmetic::rev_polish::rearrange;
use crate::elements::expr::arithmetic::word::is_name_str;
use crate::elements::expr::arithmetic::word::number_of;
use crate::elements::expr::arithmetic::word::syntax;
use crate::elements::expr::arithmetic::word::to_operand;
use crate::shell::ShellCore;
use crate::shell::CoreView;
use crate::text::i64_to_string;
use crate::text::str_is;
use crate::text::decimal;

verus! {

/// What an operation leaves behind: whether it went well, the stack and the
/// state of the shell.
pub struct Step {
    pub result: Result<(), Seq<char>>,
    pub stack: Seq<ElemView>,
    pub st: CoreView,
}

/// What taking the top of the stack gives: the operand or an error, the rest
/// of the stack and the state of the shell.
pub struct Popped {
    pub result: Result<ElemView, Seq<char>>,
    pub stack: Seq<ElemView>,
    pub st: CoreView,
}

/// The value of an expression, or the message of the error that stopped the
/// evaluation, and the state of the shell after it.
pub struct Outcome {
    pub result: Result<i64, Seq<char>>,
    pub st: CoreView,
}

/// Takes the top of the stack as an operand. A word gives the number it
/// stands for, with its postfix increment carried out; anything else is
/// handed out as it is.
pub open spec fn popped(stack: Seq<ElemView>, st: CoreView) -> Popped {
    if stack.len() == 0 {
        Popped { result: Err("no operand"@), stack, st }
    } else {
        match stack.last() {
            ElemView::Word(w, post) => {
                let (value, after) = word_operand(w.text, 0, post, st);
                Popped {
                    result: match value {
                        Ok(n) => Ok(ElemView::Integer(n)),
                        Err(msg) => Err(msg),
                    },
                    stack: stack.drop_last(),
                    st: after,
                }
            },
            e => Popped { result: Ok(e), stack: stack.drop_last(), st },
        }
    }
}

/// A binary operator that does not assign: takes the right operand, then the
/// left one, and pushes the result. The comma pushes the right operand.
pub open spec fn binary_step(op: Seq<char>, stack: Seq<ElemView>, st: CoreView) -> Step {
    let right = popped(stack, st);
    match right.result {
        Err(msg) => Step { result: Err(msg), stack: right.stack, st: right.st },
        Ok(r) => {
            let left = popped(right.stack, right.st);
            match left.result {
                Err(msg) => Step { result: Err(msg), stack: left.stack, st: left.st },
                Ok(l) => if op == ","@ {
                    Step { result: Ok(()), stack: left.stack.push(r), st: left.st }
                } else {
                    match (l, r) {
                        (ElemView::Integer(a), ElemView::Integer(b)) => match binary_value(op, a, b) {
                            Some(v) => Step {
                                result: Ok(()),
                                stack: left.stack.push(ElemView::Integer(v)),
                                st: left.st,
                            },
                            None => Step {
                                result: Err(binary_error(op, b)),
                                stack: left.stack,
                                st: left.st,
                            },
                        },
                        _ => Step { result: Err("invalid operand"@), stack: left.stack, st: left.st },
                    }
                },
            }
        },
    }
}

/// An assignment: takes the right operand, then the word on its left, which
/// has to be a name without an increment; stores the value and pushes it.
/// `=` stores the right operand; the others combine it first with the number
/// that the variable holds.
pub open spec fn assignment_step(op: Seq<char>, stack: Seq<ElemView>, st: CoreView) -> Step {
    let right = popped(stack, st);
    match right.result {
        Err(msg) => Step { result: Err(msg), stack: right.stack, st: right.st },
        Ok(ElemView::Integer(b)) => {
            if right.stack.len() == 0 {
                Step { result: Err("no variable to assign"@), stack: right.stack, st: right.st }
            } else {
                let rest = right.stack.drop_last();
                match right.stack.last() {
                    ElemView::Word(w, 0) => if !is_name(w.text) {
                        Step { result: Err(operand_error(w.text)), stack: rest, st: right.st }
                    } else if op == "="@ {
                        Step {
                            result: Ok(()),
                            stack: rest.push(ElemView::Integer(b)),
                            st: right.st.assign(w.text, decimal(b as int)),
                        }
                    } else {
                        match variable_number(w.text, right.st) {
                            Err(msg) => Step { result: Err(msg), stack: rest, st: right.st },
                            Ok(cur) => match compound_value(op, cur, b) {
                                Some(v) => Step {
                                    result: Ok(()),
                                    stack: rest.push(ElemView::Integer(v)),
                                    st: right.st.assign(w.text, decimal(v as int)),
                                },
                                None => Step {
                                    result: Err(compound_error(op, b)),
                                    stack: rest,
                                    st: right.st,
                                },
                            },
                        }
                    },
                    _ => Step { result: Err("assignment requires lvalue"@), stack: rest, st: right.st },
                }
            }
        },
        Ok(_) => Step { result: Err("invalid operand"@), stack: right.stack, st: right.st },
    }
}

/// A binary operator: an assignment or a computation.
pub open spec fn operator_step(op: Seq<char>, stack: Seq<ElemView>, st: CoreView) -> Step {
    if is_assignment(op) {
        assignment_step(op, stack, st)
    } else {
        binary_step(op, stack, st)
    }
}

/// A unary operator: takes one operand and pushes the result.
pub open spec fn unary_step(op: Seq<char>, stack: Seq<ElemView>, st: CoreView) -> Step {
    let operand = popped(stack, st);
    match operand.result {
        Err(msg) => Step { result: Err(msg), stack: operand.stack, st: operand.st },
        Ok(ElemView::Integer(n)) => match unary_value(op, n) {
            Some(v) => Step {
                result: Ok(()),
                stack: operand.stack.push(ElemView::Integer(v)),
                st: operand.st,
            },
            None => Step {
                result: Err("unknown unary operator"@),
                stack: operand.stack,
                st: operand.st,
            },
        },
        Ok(_) => Step { result: Err("unknown operand"@), stack: operand.stack, st: operand.st },
    }
}

/// A `++` or `--` before a word: the word on top of the stack is replaced by
/// its number after the increment.
pub open spec fn increment_step(pre: i64, stack: Seq<ElemView>, st: CoreView) -> Step {
    if stack.len() == 0 {
        Step { result: Err("invalid increment"@), stack, st }
    } else {
        match stack.last() {
            ElemView::Word(w, post) => {
                let (value, after) = word_operand(w.text, pre, post, st);
                match value {
                    Ok(n) => Step {
                        result: Ok(()),
                        stack: stack.drop_last().push(ElemView::Integer(n)),
                        st: after,
                    },
                    Err(msg) => Step { result: Err(msg), stack: stack.drop_last(), st: after },
                }
            },
            _ => Step { result: Err("invalid increment"@), stack: stack.drop_last(), st },
        }
    }
}

/// Whether the left operand of `&&` or `||` already decides the result.
pub open spec fn decides(op: Seq<char>, left: i64) -> bool {
    (left != 0 && op == "||"@) || (left == 0 && op == "&&"@)
}

/// The mark behind the left operand of `&&` or `||`: the operand is replaced
/// by 1 where it is not 0.
pub open spec fn mark_step(stack: Seq<ElemView>, st: CoreView) -> Step {
    let last = popped(stack, st);
    match last.result {
        Err(msg) => Step { result: Err(msg), stack: last.stack, st: last.st },
        Ok(e) => Step {
            result: Ok(()),
            stack: last.stack.push(
                ElemView::Integer(
                    if e == ElemView::Integer(0) {
                        0i64
                    } else {
                        1i64
                    },
                ),
            ),
            st: last.st,
        },
    }
}

/// How much nesting of conditionals a list of tokens holds.
pub open spec fn weight(s: Seq<ElemView>) -> nat
    decreases s,
{
    if s.len() == 0 {
        0
    } else {
        elem_weight(s[0]) + weight(s.drop_first())
    }
}

pub open spec fn elem_weight(e: ElemView) -> nat
    decreases e,
{
    match e {
        ElemView::Ternary(l, r) => 1 + side_weight(l) + side_weight(r),
        _ => 0,
    }
}

pub open spec fn side_weight(side: Option<Box<ExprView>>) -> nat
    decreases side,
{
    match side {
        Some(e) => weight(e.elements),
        None => 0,
    }
}

proof fn lemma_weight_push(s: Seq<ElemView>, e: ElemView)
    ensures
        weight(s.push(e)) == weight(s) + elem_weight(e),
    decreases s.len(),
{
    if s.len() == 0 {
        assert(s.push(e).drop_first() =~= Seq::<ElemView>::empty());
        assert(weight(s.push(e).drop_first()) == 0);
    } else {
        lemma_weight_push(s.drop_first(), e);
        assert(s.push(e).drop_first() =~= s.drop_first().push(e));
    }
}

proof fn lemma_weight_drop_last(s: Seq<ElemView>)
    requires
        s.len() > 0,
    ensures
        weight(s) == weight(s.drop_last()) + elem_weight(s.last()),
{
    lemma_weight_push(s.drop_last(), s.last());
    assert(s.drop_last().push(s.last()) =~= s);
}

spec fn yard_weight(y: Yard) -> nat {
    weight(y.out) + weight(y.ops)
}

proof fn lemma_unwind_weight(y: Yard, e: ElemView)
    ensures
        yard_weight(unwind(y, e)) == yard_weight(y),
    decreases y.ops.len(),
{
    if y.ops.len() > 0 && crate::elements::expr::arithmetic::rev_polish::yields(y.ops.last(), e) {
        let next = Yard { out: y.out.push(y.ops.last()), ops: y.ops.drop_last() };
        lemma_unwind_weight(next, e);
        lemma_weight_push(y.out, y.ops.last());
        lemma_weight_drop_last(y.ops);
    }
}

proof fn lemma_close_weight(y: Yard)
    ensures
        close(y) matches Some(z) ==> yard_weight(z) == yard_weight(y),
    decreases y.ops.len(),
{
    if y.ops.len() > 0 {
        lemma_weight_drop_last(y.ops);
        if !(y.ops.last() is LeftParen) {
            let next = Yard { out: y.out.push(y.ops.last()), ops: y.ops.drop_last() };
            lemma_close_weight(next);
            lemma_weight_push(y.out, y.ops.last());
        }
    }
}

proof fn lemma_feed_weight(y: Yard, e: ElemView)
    ensures
        feed(y, e) matches Some(z) ==> yard_weight(z) == yard_weight(y) + elem_weight(e),
{
    lemma_unwind_weight(y, e);
    lemma_close_weight(y);
    let u = unwind(y, e);
    lemma_weight_push(y.out, e);
    lemma_weight_push(y.ops, e);
    lemma_weight_push(u.out, e);
    lemma_weight_push(u.ops, e);
    if e.is_logical() {
        lemma_weight_push(u.out, ElemView::Delimiter(e->BinaryOp_0));
    }
}

proof fn lemma_feed_all_weight(y: Yard, tokens: Seq<ElemView>)
    ensures
        feed_all(y, tokens) matches Ok(z) ==> yard_weight(z) == yard_weight(y) + weight(tokens),
    decreases tokens.len(),
{
    if tokens.len() > 0 {
        lemma_feed_weight(y, tokens[0]);
        match feed(y, tokens[0]) {
            Some(next) => {
                lemma_feed_all_weight(next, tokens.drop_first());
            },
            None => {},
        }
    }
}

proof fn lemma_drain_weight(y: Yard)
    ensures
        drain(y) matches Some(out) ==> weight(out) == yard_weight(y),
    decreases y.ops.len(),
{
    if y.ops.len() > 0 && !(y.ops.last() is LeftParen) {
        let next = Yard { out: y.out.push(y.ops.last()), ops: y.ops.drop_last() };
        lemma_drain_weight(next);
        lemma_weight_push(y.out, y.ops.last());
        lemma_weight_drop_last(y.ops);
    }
}

/// The rearrangement neither adds nor removes a conditional.
pub proof fn lemma_rearranged_weight(tokens: Seq<ElemView>)
    ensures
        rearranged(tokens) matches Ok(rpn) ==> weight(rpn) == weight(tokens),
{
    let start = Yard { out: Seq::empty(), ops: Seq::empty() };
    lemma_feed_all_weight(start, tokens);
    match feed_all(start, tokens) {
        Ok(y) => {
            lemma_drain_weight(y);
        },
        Err(_) => {},
    }
}

/// One token that is neither a conditional nor a mark: an operand is pushed,
/// an operator works on the stack.
pub open spec fn plain_step(e: ElemView, stack: Seq<ElemView>, st: CoreView) -> Step {
    match e {
        ElemView::Integer(_) | ElemView::Float(_) | ElemView::Word(_, _) => Step {
            result: Ok(()),
            stack: stack.push(e),
            st,
        },
        ElemView::BinaryOp(op) => operator_step(op, stack, st),
        ElemView::UnaryOp(op) => unary_step(op, stack, st),
        ElemView::Increment(n) => increment_step(n, stack, st),
        _ => Step { result: Err(operand_error(elem_text(e))), stack, st },
    }
}

/// The end of the evaluation: exactly one operand is left, and it is a number.
pub open spec fn finish(stack: Seq<ElemView>, st: CoreView) -> Outcome {
    if stack.len() != 1 {
        Outcome { result: Err("unknown syntax error_message (stack inconsistency)"@), st }
    } else {
        let last = popped(stack, st);
        match last.result {
            Ok(ElemView::Integer(n)) => Outcome { result: Ok(n), st: last.st },
            Ok(_) => Outcome { result: Err("invalid operand"@), st: last.st },
            Err(msg) => Outcome { result: Err(msg), st: last.st },
        }
    }
}

/// The side of a conditional that the condition on top of the stack selects:
/// the left one where the condition is not 0, the right one where it is.
/// `None` where the condition cannot be taken or the side is missing.
pub open spec fn selected(
    left: Option<Box<ExprView>>,
    right: Option<Box<ExprView>>,
    stack: Seq<ElemView>,
    st: CoreView,
) -> Option<Box<ExprView>> {
    match popped(stack, st).result {
        Err(_) => None,
        Ok(c) => if c == ElemView::Integer(0) {
            right
        } else {
            left
        },
    }
}

/// The conditional, where `inner` is the outcome of evaluating the selected
/// side in the state that taking the condition left: the condition is taken
/// from the stack and the value of that side is pushed. The other side is not
/// evaluated.
pub open spec fn conditional_step(
    left: Option<Box<ExprView>>,
    right: Option<Box<ExprView>>,
    stack: Seq<ElemView>,
    st: CoreView,
    inner: Outcome,
) -> Step {
    let cond = popped(stack, st);
    match cond.result {
        Err(msg) => Step { result: Err(msg), stack: cond.stack, st: cond.st },
        Ok(_) => match selected(left, right, stack, st) {
            None => Step { result: Err("expression expected"@), stack: cond.stack, st: cond.st },
            Some(_) => match inner.result {
                Ok(v) => Step {
                    result: Ok(()),
                    stack: cond.stack.push(ElemView::Integer(v)),
                    st: inner.st,
                },
                Err(msg) => Step { result: Err(msg), stack: cond.stack, st: inner.st },
            },
        },
    }
}

/// The stack machine between two tokens: the stack, whether tokens are being
/// passed over, and the state of the shell. While `skip` holds a number the
/// tokens are passed over: they belong to the right operand of an `&&` or
/// `||` whose left operand decided the result, and the number counts the
/// marks of operators inside that operand that are still open.
pub struct Machine {
    pub stack: Seq<ElemView>,
    pub skip: Option<nat>,
    pub st: CoreView,
}

/// The machine after one token in reverse-Polish order, or the error that
/// stops it, with the state of the shell at that point; `inner` is the
/// outcome of the side that a conditional selects. A token that is passed
/// over changes nothing but the count of open marks; the operator that
/// matches the first mark ends the passing over.
pub open spec fn advance(e: ElemView, m: Machine, inner: Outcome) -> Result<
    Machine,
    (Seq<char>, CoreView),
> {
    match m.skip {
        Some(depth) => if e is Delimiter {
            Ok(Machine { skip: Some(depth + 1), ..m })
        } else if e.is_logical() {
            if depth == 0 {
                Ok(Machine { skip: None, ..m })
            } else {
                Ok(Machine { skip: Some((depth - 1) as nat), ..m })
            }
        } else {
            Ok(m)
        },
        None => {
            let s = match e {
                ElemView::Ternary(left, right) => conditional_step(left, right, m.stack, m.st, inner),
                ElemView::Delimiter(_) => mark_step(m.stack, m.st),
                _ => plain_step(e, m.stack, m.st),
            };
            match s.result {
                Err(msg) => Err((msg, s.st)),
                Ok(_) => Ok(
                    Machine {
                        stack: s.stack,
                        skip: if e matches ElemView::Delimiter(op) && decides(
                            op,
                            s.stack.last()->Integer_0,
                        ) {
                            Some(0nat)
                        } else {
                            None
                        },
                        st: s.st,
                    },
                ),
            }
        },
    }
}

/// The side that has to be evaluated before the machine can take the token
/// `e`: the selected side of a conditional that is not passed over.
pub open spec fn pending(e: ElemView, m: Machine) -> Option<Box<ExprView>> {
    match e {
        ElemView::Ternary(left, right) => if m.skip is None {
            selected(left, right, m.stack, m.st)
        } else {
            None
        },
        _ => None,
    }
}

/// The value of the tokens of an expression, in the order in which they are
/// written. No tokens at all have the value 0.
pub open spec fn calculate_value(tokens: Seq<ElemView>, st: CoreView) -> Outcome
    decreases weight(tokens), 1nat, 0nat,
{
    if tokens.len() == 0 {
        Outcome { result: Ok(0), st }
    } else {
        match rearranged(tokens) {
            Err(e) => Outcome { result: Err(operand_error(elem_text(e))), st },
            Ok(rpn) => {
                proof {
                    lemma_rearranged_weight(tokens);
                }
                run(rpn, Machine { stack: Seq::empty(), skip: None, st })
            },
        }
    }
}

/// The evaluation of tokens in reverse-Polish order by a machine: before each
/// token the side that it has pending is evaluated.
pub open spec fn run(rpn: Seq<ElemView>, m: Machine) -> Outcome
    decreases weight(rpn), 0nat, rpn.len(),
{
    if rpn.len() == 0 {
        finish(m.stack, m.st)
    } else {
        let inner = match pending(rpn[0], m) {
            Some(expr) => {
                proof {
                    assert(weight(rpn) == elem_weight(rpn[0]) + weight(rpn.drop_first()));
                    assert(side_weight(Some(expr)) == weight(expr.elements));
                }
                calculate_value(expr.elements, popped(m.stack, m.st).st)
            },
            None => Outcome { result: Ok(0), st: m.st },
        };
        match advance(rpn[0], m, inner) {
            Ok(next) => run(rpn.drop_first(), next),
            Err((msg, st)) => Outcome { result: Err(msg), st },
        }
    }
}

/// The outcome of the side that the token `e` has pending.
pub open spec fn pending_outcome(e: ElemView, m: Machine) -> Outcome {
    match pending(e, m) {
        Some(expr) => calculate_value(expr.elements, popped(m.stack, m.st).st),
        None => Outcome { result: Ok(0), st: m.st },
    }
}

/// The value of an expression between a pair of parentheses is the value of
/// the expression, and the state of the shell after it is the same, for every
/// expression that has a token and can be rearranged.
pub proof fn lemma_parenthesized_value(tokens: Seq<ElemView>, st: CoreView)
    requires
        tokens.len() > 0,
        rearranged(tokens) is Ok,
    ensures
        calculate_value(
            seq![ElemView::LeftParen] + tokens + seq![ElemView::RightParen],
            st,
        ) == calculate_value(tokens, st),
{
    crate::elements::expr::arithmetic::rev_polish::lemma_parentheses(tokens);
}

/// What `run` does with the first token.
pub proof fn lemma_run_unfold(rpn: Seq<ElemView>, m: Machine)
    ensures
        run(rpn, m) == if rpn.len() == 0 {
            finish(m.stack, m.st)
        } else {
            match advance(rpn[0], m, pending_outcome(rpn[0], m)) {
                Ok(next) => run(rpn.drop_first(), next),
                Err((msg, st)) => Outcome { result: Err(msg), st },
            }
        },
{
}

proof fn lemma_weight_index(s: Seq<ElemView>, i: int)
    requires
        0 <= i < s.len(),
    ensures
        elem_weight(s[i]) <= weight(s),
    decreases s.len(),
{
    if i > 0 {
        lemma_weight_index(s.drop_first(), i - 1);
    }
}

/// Whether an executable result says what the model says.
pub open spec fn done(r: Result<(), String>, s: Result<(), Seq<char>>) -> bool {
    match s {
        Ok(_) => r is Ok,
        Err(m) => r matches Err(msg) && msg@ == m,
    }
}

fn push_elem(stack: &mut Vec<ArithElem>, e: ArithElem)
    ensures
        elem_views(final(stack)@) == elem_views(old(stack)@).push(e@),
{
    stack.push(e);
    assert(elem_views(stack@) =~= elem_views(old(stack)@).push(e@));
}

fn pop_elem(stack: &mut Vec<ArithElem>) -> (r: Option<ArithElem>)
    ensures
        match r {
            Some(e) => old(stack)@.len() > 0 && e@ == elem_views(old(stack)@).last() && elem_views(
                final(stack)@,
            ) == elem_views(old(stack)@).drop_last(),
            None => old(stack)@.len() == 0 && final(stack)@.len() == 0,
        },
{
    let r = stack.pop();
    if r.is_some() {
        assert(elem_views(stack@) =~= elem_views(old(stack)@).drop_last());
    }
    r
}

/// Takes the top of the stack as an operand.
pub fn pop_operand(stack: &mut Vec<ArithElem>, core: &mut ShellCore) -> (r: Result<ArithElem, String>)
    ensures
        ({
            let p = popped(elem_views(old(stack)@), old(core)@);
            &&& elem_views(final(stack)@) == p.stack
            &&& final(core)@ == p.st
            &&& match p.result {
                Ok(e) => r matches Ok(x) && x@ == e,
                Err(m) => r matches Err(msg) && msg@ == m,
            }
        }),
{
    match pop_elem(stack) {
        Some(ArithElem::Word(w, post)) => {
            match to_operand(w.text.as_str(), 0, post, core) {
                Ok(n) => Ok(ArithElem::Integer(n)),
                Err(msg) => Err(msg),
            }
        },
        Some(elem) => Ok(elem),
        None => {
            assert(elem_views(stack@) =~= elem_views(old(stack)@));
            Err(String::from_str("no operand"))
        },
    }
}

fn bin_calc_operation(op: &str, stack: &mut Vec<ArithElem>, core: &mut ShellCore) -> (r: Result<
    (),
    String,
>)
    ensures
        ({
            let s = binary_step(op@, elem_views(old(stack)@), old(core)@);
            &&& elem_views(final(stack)@) == s.stack
            &&& final(core)@ == s.st
            &&& done(r, s.result)
        }),
{
    let right = match pop_operand(stack, core) {
        Ok(v) => v,
        Err(e) => {
            return Err(e);
        },
    };
    let left = match pop_operand(stack, core) {
        Ok(v) => v,
        Err(e) => {
            return Err(e);
        },
    };
    if str_is(op, ",") {
        push_elem(stack, right);
        return Ok(());
    }
    match (left, right) {
        (ArithElem::Integer(a), ArithElem::Integer(b)) => match binary_operation(op, a, b) {
            Ok(v) => {
                push_elem(stack, ArithElem::Integer(v));
                Ok(())
            },
            Err(msg) => Err(msg),
        },
        _ => Err(String::from_str("invalid operand")),
    }
}

/// Carries out an assignment on the stack.
fn substitution(op: &str, stack: &mut Vec<ArithElem>, core: &mut ShellCore) -> (r: Result<(), String>)
    ensures
        ({
            let s = assignment_step(op@, elem_views(old(stack)@), old(core)@);
            &&& elem_views(final(stack)@) == s.stack
            &&& final(core)@ == s.st
            &&& done(r, s.result)
        }),
{
    let right = match pop_operand(stack, core) {
        Ok(ArithElem::Integer(b)) => b,
        Ok(_) => {
            return Err(String::from_str("invalid operand"));
        },
        Err(e) => {
            return Err(e);
        },
    };
    let name = match pop_elem(stack) {
        Some(ArithElem::Word(w, inc)) => {
            if inc != 0 {
                return Err(String::from_str("assignment requires lvalue"));
            }
            w.text
        },
        Some(_) => {
            return Err(String::from_str("assignment requires lvalue"));
        },
        None => {
            return Err(String::from_str("no variable to assign"));
        },
    };
    if !is_name_str(name.as_str()) {
        return Err(syntax(name.as_str()));
    }
    if str_is(op, "=") {
        core.set_var(name.as_str(), i64_to_string(right).as_str());
        push_elem(stack, ArithElem::Integer(right));
        return Ok(());
    }
    let cur = match number_of(name.as_str(), core) {
        Ok(n) => n,
        Err(msg) => {
            return Err(msg);
        },
    };
    match substitute(op, &name, cur, right, core) {
        Ok(elem) => {
            push_elem(stack, elem);
            Ok(())
        },
        Err(msg) => Err(msg),
    }
}

fn bin_operation(op: &str, stack: &mut Vec<ArithElem>, core: &mut ShellCore) -> (r: Result<(), String>)
    ensures
        ({
            let s = operator_step(op@, elem_views(old(stack)@), old(core)@);
            &&& elem_views(final(stack)@) == s.stack
            &&& final(core)@ == s.st
            &&& done(r, s.result)
        }),
{
    if is_assignment_operator(op) {
        substitution(op, stack, core)
    } else {
        bin_calc_operation(op, stack, core)
    }
}

fn unary_operation(op: &str, stack: &mut Vec<ArithElem>, core: &mut ShellCore) -> (r: Result<
    (),
    String,
>)
    ensures
        ({
            let s = unary_step(op@, elem_views(old(stack)@), old(core)@);
            &&& elem_views(final(stack)@) == s.stack
            &&& final(core)@ == s.st
            &&& done(r, s.result)
        }),
{
    let operand = match pop_operand(stack, core) {
        Ok(v) => v,
        Err(e) => {
            return Err(e);
        },
    };
    match operand {
        ArithElem::Integer(num) => {
            let ghost before = elem_views(stack@);
            let r = unary_calc(op, num, stack);
            proof {
                match unary_value(op@, num) {
                    Some(v) => {
                        assert(elem_views(stack@) =~= before.push(ElemView::Integer(v)));
                    },
                    None => {
                        assert(elem_views(stack@) =~= before);
                    },
                }
            }
            r
        },
        _ => Err(String::from_str("unknown operand")),
    }
}

fn inc(pre: i64, stack: &mut Vec<ArithElem>, core: &mut ShellCore) -> (r: Result<(), String>)
    ensures
        ({
            let s = increment_step(pre, elem_views(old(stack)@), old(core)@);
            &&& elem_views(final(stack)@) == s.stack
            &&& final(core)@ == s.st
            &&& done(r, s.result)
        }),
{
    match pop_elem(stack) {
        Some(ArithElem::Word(w, post)) => {
            match to_operand(w.text.as_str(), pre, post, core) {
                Ok(n) => {
                    push_elem(stack, ArithElem::Integer(n));
                    Ok(())
                },
                Err(e) => Err(e),
            }
        },
        Some(_) => Err(String::from_str("invalid increment")),
        None => {
            assert(elem_views(stack@) =~= elem_views(old(stack)@));
            Err(String::from_str("invalid increment"))
        },
    }
}

/// Handles the mark behind the left operand of `&&` or `||`. The result is
/// the operator where the operand decides the result, so that the tokens up
/// to that operator are to be passed over; else it is empty.
fn check_skip(op: &str, stack: &mut Vec<ArithElem>, core: &mut ShellCore) -> (r: Result<String, String>)
    ensures
        ({
            let s = mark_step(elem_views(old(stack)@), old(core)@);
            &&& elem_views(final(stack)@) == s.stack
            &&& final(core)@ == s.st
            &&& match s.result {
                Ok(_) => r matches Ok(until) && until@ == if decides(
                    op@,
                    s.stack.last()->Integer_0,
                ) {
                    op@
                } else {
                    Seq::<char>::empty()
                },
                Err(m) => r matches Err(msg) && msg@ == m,
            }
        }),
{
    let last = match pop_operand(stack, core) {
        Ok(e) => e,
        Err(e) => {
            return Err(e);
        },
    };
    let last_result: i64 = match last {
        ArithElem::Integer(0) => 0,
        _ => 1,
    };
    push_elem(stack, ArithElem::Integer(last_result));
    if last_result == 1 && str_is(op, "||") {
        return Ok(String::from_str("||"));
    }
    if last_result == 0 && str_is(op, "&&") {
        return Ok(String::from_str("&&"));
    }
    Ok(String::new())
}

/// Evaluates the side of a conditional that the condition on the stack
/// selects, and pushes its value.
fn operation(
    left: &Option<Box<ArithmeticExpr>>,
    right: &Option<Box<ArithmeticExpr>>,
    stack: &mut Vec<ArithElem>,
    core: &mut ShellCore,
) -> (r: Result<(), String>)
    ensures
        ({
            let m = Machine { stack: elem_views(old(stack)@), skip: None, st: old(core)@ };
            let e = ElemView::Ternary(side_view(*left), side_view(*right));
            let s = conditional_step(
                side_view(*left),
                side_view(*right),
                m.stack,
                m.st,
                pending_outcome(e, m),
            );
            &&& elem_views(final(stack)@) == s.stack
            &&& final(core)@ == s.st
            &&& done(r, s.result)
        }),
    decreases 1 + side_weight(side_view(*left)) + side_weight(side_view(*right)), 0nat, 0nat,
{
    let cond = match pop_operand(stack, core) {
        Ok(v) => v,
        Err(e) => {
            return Err(e);
        },
    };
    let side = match cond {
        ArithElem::Integer(0) => right,
        _ => left,
    };
    match side {
        None => Err(String::from_str("expression expected")),
        Some(expr) => {
            match calculate(&expr.elements, core) {
                Ok(v) => {
                    push_elem(stack, v);
                    Ok(())
                },
                Err(msg) => Err(msg),
            }
        },
    }
}

/// What the executable code holds of the machine.
spec fn machine_of(stack: Seq<ArithElem>, skip: Option<usize>, st: CoreView) -> Machine {
    Machine {
        stack: elem_views(stack),
        skip: match skip {
            Some(d) => Some(d as nat),
            None => None,
        },
        st,
    }
}

/// Lets the machine take one token.
fn advance_once(
    e: &ArithElem,
    stack: &mut Vec<ArithElem>,
    skip: &mut Option<usize>,
    core: &mut ShellCore,
) -> (r: Result<(), String>)
    requires
        *old(skip) matches Some(d) ==> d < usize::MAX,
    ensures
        ({
            let before = machine_of(old(stack)@, *old(skip), old(core)@);
            match advance(e@, before, pending_outcome(e@, before)) {
                Ok(m) => r is Ok && machine_of(final(stack)@, *final(skip), final(core)@) == m,
                Err((m, st)) => r matches Err(msg) && msg@ == m && final(core)@ == st,
            }
        }),
        *final(skip) matches Some(d) ==> (*old(skip) matches Some(d0) && d <= d0 + 1) || d == 0,
    decreases elem_weight(e@), 1nat, 0nat,
{
    match *skip {
        Some(depth) => {
            if let ArithElem::Delimiter(_) = e {
                *skip = Some(depth + 1);
            } else if e.is_logical() {
                if depth == 0 {
                    *skip = None;
                } else {
                    *skip = Some(depth - 1);
                }
            }
            Ok(())
        },
        None => {
            match e {
                ArithElem::Integer(_) | ArithElem::Float(_) | ArithElem::Word(_, _) => {
                    push_elem(stack, e.duplicate());
                    Ok(())
                },
                ArithElem::BinaryOp(op) => bin_operation(op.as_str(), stack, core),
                ArithElem::UnaryOp(op) => unary_operation(op.as_str(), stack, core),
                ArithElem::Increment(n) => inc(*n, stack, core),
                ArithElem::Ternary(left, right) => operation(left, right, stack, core),
                ArithElem::Delimiter(d) => match check_skip(d.as_str(), stack, core) {
                    Ok(until) => {
                        if until.as_str().unicode_len() > 0 {
                            *skip = Some(0);
                        } else {
                            assert(!decides(d@, elem_views(stack@).last()->Integer_0)) by {
                                reveal_strlit("||");
                                reveal_strlit("&&");
                            }
                        }
                        Ok(())
                    },
                    Err(msg) => Err(msg),
                },
                _ => Err(syntax(to_string(e).as_str())),
            }
        },
    }
}

/// Evaluates the tokens of an expression, given in the order in which they
/// are written.
pub fn calculate(elements: &Vec<ArithElem>, core: &mut ShellCore) -> (r: Result<ArithElem, String>)
    ensures
        ({
            let o = calculate_value(elem_views(elements@), old(core)@);
            &&& final(core)@ == o.st
            &&& match o.result {
                Ok(n) => r matches Ok(x) && x@ == ElemView::Integer(n),
                Err(m) => r matches Err(msg) && msg@ == m,
            }
        }),
    decreases weight(elem_views(elements@)), 2nat, 0nat,
{
    if elements.len() == 0 {
        return Ok(ArithElem::Integer(0));
    }
    let rev_pol = match rearrange(elements) {
        Ok(ans) => ans,
        Err(e) => {
            return Err(syntax(to_string(&e).as_str()));
        },
    };
    let ghost tokens = elem_views(elements@);
    let ghost rpn = elem_views(rev_pol@);
    let ghost start = Machine { stack: Seq::empty(), skip: None, st: old(core)@ };
    proof {
        lemma_rearranged_weight(tokens);
        assert(rpn.skip(0) =~= rpn);
    }
    let mut stack: Vec<ArithElem> = Vec::new();
    let mut skip: Option<usize> = None;
    assert(elem_views(stack@) =~= Seq::<ElemView>::empty());
    let mut i: usize = 0;
    let ghost goal = calculate_value(tokens, old(core)@);
    assert(rearranged(tokens) == Ok::<Seq<ElemView>, ElemView>(rpn));
    assert(tokens.len() > 0);
    assert(goal == run(rpn, start));
    assert(machine_of(stack@, skip, core@) == start);
    while i < rev_pol.len()
        invariant
            i <= rev_pol.len(),
            rpn == elem_views(rev_pol@),
            tokens == elem_views(elements@),
            weight(rpn) == weight(tokens),
            skip matches Some(d) ==> d <= i,
            goal == calculate_value(tokens, old(core)@),
            run(rpn.skip(i as int), machine_of(stack@, skip, core@)) == goal,
        decreases rev_pol.len() - i,
    {
        let ghost before = machine_of(stack@, skip, core@);
        proof {
            let rest = rpn.skip(i as int);
            assert(rest[0] == rev_pol@[i as int]@);
            assert(rest.drop_first() =~= rpn.skip(i + 1));
            lemma_weight_index(rpn, i as int);
            lemma_run_unfold(rest, before);
        }
        if let Err(msg) = advance_once(&rev_pol[i], &mut stack, &mut skip, core) {
            return Err(msg);
        }
        i += 1;
    }
    proof {
        lemma_run_unfold(rpn.skip(i as int), machine_of(stack@, skip, core@));
    }
    if stack.len() != 1 {
        return Err(String::from_str("unknown syntax error_message (stack inconsistency)"));
    }
    match pop_operand(&mut stack, core) {
        Ok(ArithElem::Integer(n)) => Ok(ArithElem::Integer(n)),
        Ok(_) => Err(String::from_str("invalid operand")),
        Err(msg) => Err(msg),
    }
}

} // verus!
