//! The parser of arithmetic expressions: it cuts the text into tokens.

use vstd::prelude::*;
use crate::elements::expr::arithmetic::ArithmeticExpr;
use crate::elements::expr::arithmetic::ExprView;
use crate::elements::expr::arithmetic::elem::ArithElem;
use crate::elements::expr::arithmetic::elem::ElemView;
use crate::elements::expr::arithmetic::elem::elem_views;
use crate::elements::word::Word;
use crate::elements::grammar::expr_end;
use crate::elements::grammar::open_parens;
use crate::elements::grammar::ternary_at;
use crate::elements::grammar::operand_token_at;
use crate::elements::grammar::expr_token_at;
use crate::elements::grammar::expr_tokens;
use crate::elements::grammar::expr_at;
use crate::elements::grammar::expr_token;
use crate::elements::grammar::ternary_end;
use crate::elements::grammar::skip_suffix;
use crate::elements::grammar::skip_run;
use crate::elements::grammar::operand_token;
use crate::elements::grammar::ended;
use crate::feeder::Feeder;
use crate::feeder::FeederView;
use crate::feeder::lemma_took_twice;
use crate::feeder::scanner::CharClass;
use crate::feeder::scanner::binary_operators;
use crate::feeder::scanner::first_match;
use crate::feeder::scanner::unary_operators;
use crate::shell::ShellCore;
use crate::text::digit;
use crate::text::to_chars;

verus! {

/// Whether `s` is a number with a fraction: digits with exactly one point
/// among them.
pub open spec fn is_float_literal(s: Seq<char>) -> bool {
    &&& s.len() >= 2
    &&& exists|p: int|
        0 <= p < s.len() && s[p] == '.' && forall|i: int|
            0 <= i < s.len() && i != p ==> digit(#[trigger] s[i])
}

/// Whether `s` is a number with a fraction.
pub fn is_float(s: &str) -> (b: bool)
    ensures
        b == is_float_literal(s@),
{
    let v = to_chars(s);
    if v.len() < 2 {
        return false;
    }
    let mut point: Option<usize> = None;
    let mut i: usize = 0;
    while i < v.len()
        invariant
            i <= v.len(),
            v@ == s@,
            match point {
                Some(p) => p < i && v@[p as int] == '.' && forall|k: int|
                    0 <= k < i && k != p ==> digit(#[trigger] v@[k]),
                None => forall|k: int| 0 <= k < i ==> digit(#[trigger] v@[k]),
            },
        decreases v.len() - i,
    {
        let c = v[i];
        if c == '.' {
            if point.is_some() {
                assert(!is_float_literal(s@)) by {
                    if is_float_literal(s@) {
                        let p = choose|p: int|
                            0 <= p < s@.len() && s@[p] == '.' && forall|k: int|
                                0 <= k < s@.len() && k != p ==> digit(#[trigger] s@[k]);
                        if p == i {
                            assert(digit(s@[point->0 as int]));
                        } else {
                            assert(digit(s@[i as int]));
                        }
                    }
                }
                return false;
            }
            point = Some(i);
        } else if !('0' <= c && c <= '9') {
            assert(!is_float_literal(s@)) by {
                if is_float_literal(s@) {
                    let p = choose|p: int|
                        0 <= p < s@.len() && s@[p] == '.' && forall|k: int|
                            0 <= k < s@.len() && k != p ==> digit(#[trigger] s@[k]);
                    assert(digit(s@[i as int]));
                }
            }
            return false;
        }
        i += 1;
    }
    match point {
        Some(p) => {
            assert(is_float_literal(s@));
            true
        },
        None => {
            assert(!is_float_literal(s@)) by {
                if is_float_literal(s@) {
                    let p = choose|p: int|
                        0 <= p < s@.len() && s@[p] == '.' && forall|k: int|
                            0 <= k < s@.len() && k != p ==> digit(#[trigger] s@[k]);
                    assert(digit(s@[p]));
                }
            }
            false
        },
    }
}

/// How an expression grows while the parser reads: the text by what was
/// consumed, the tokens at their end.
pub open spec fn grown(before: ExprView, after: ExprView, consumed: Seq<char>) -> bool {
    &&& after.text == before.text + consumed
    &&& before.elements.is_prefix_of(after.elements)
}

/// Whether an operand or a closing parenthesis stands last among the tokens.
pub open spec fn operand_last(elements: Seq<ElemView>) -> bool {
    elements.len() > 0 && (elements.last() is Integer || elements.last() is Float
        || elements.last() is Word || elements.last() is RightParen)
}

/// Whether an expression got one more token, which is an operand or a
/// closing parenthesis where `operand` says so, and as many parentheses are
/// open as before.
pub open spec fn pushed(before: ExprView, after: ExprView, operand: bool) -> bool {
    &&& after.elements.len() == before.elements.len() + 1
    &&& operand_last(after.elements) == operand
    &&& after.paren_stack == before.paren_stack
}

fn push_token(ans: &mut ArithmeticExpr, e: ArithElem)
    ensures
        final(ans)@ == (ExprView { elements: old(ans)@.elements.push(e@), ..old(ans)@ }),
        old(ans)@.elements.is_prefix_of(final(ans)@.elements),
{
    ans.elements.push(e);
    assert(elem_views(ans.elements@) =~= elem_views(old(ans).elements@).push(e@));
    assert(ans@.elements.subrange(0, old(ans)@.elements.len() as int) =~= old(ans)@.elements);
}

impl ArithmeticExpr {
    /// An expression without tokens.
    pub fn new() -> (e: ArithmeticExpr)
        ensures
            e@.text.len() == 0,
            e@.elements.len() == 0,
            e@.paren_stack.len() == 0,
    {
        let e = ArithmeticExpr { text: String::new(), elements: Vec::new(), paren_stack: Vec::new() };
        assert(e@.elements =~= Seq::empty());
        e
    }

    /// Moves `n` characters from the feeder to the text of the expression.
    fn take(feeder: &mut Feeder, ans: &mut Self, n: usize) -> (s: String)
        requires
            old(feeder)@.wf(),
            n <= old(feeder)@.remaining().len(),
        ensures
            s@ == old(feeder)@.remaining().take(n as int),
            final(feeder)@ == (FeederView { pos: old(feeder)@.pos + n, ..old(feeder)@ }),
            final(feeder)@.took(old(feeder)@, s@),
            final(ans)@ == (ExprView { text: old(ans)@.text + s@, ..old(ans)@ }),
    {
        let s = feeder.consume(n);
        ans.text.append(s.as_str());
        s
    }

    fn eat_blank(feeder: &mut Feeder, ans: &mut Self, core: &mut ShellCore)
        requires
            old(feeder)@.wf(),
        ensures
            *final(core) == *old(core),
            final(feeder)@.follows(old(feeder)@),
            final(feeder)@.limit == old(feeder)@.limit,
            final(ans)@ == (ExprView {
                text: old(ans)@.text + final(feeder)@.consumed_since(old(feeder)@),
                ..old(ans)@
            }),
            final(feeder)@.cursor() == skip_run(
                old(feeder)@.chars,
                old(feeder)@.cursor(),
                CharClass::Space,
            ),
    {
        let len = feeder.scanner_multiline_blank(core);
        Self::take(feeder, ans, len);
    }

    fn eat_suffix(feeder: &mut Feeder, ans: &mut Self) -> (n: i64)
        requires
            old(feeder)@.wf(),
        ensures
            final(feeder)@.follows(old(feeder)@),
            final(feeder)@.limit == old(feeder)@.limit,
            final(ans)@ == (ExprView {
                text: old(ans)@.text + final(feeder)@.consumed_since(old(feeder)@),
                ..old(ans)@
            }),
            n == if "++"@.is_prefix_of(old(feeder)@.remaining()) {
                1i64
            } else if "--"@.is_prefix_of(old(feeder)@.remaining()) {
                -1i64
            } else {
                0i64
            },
            final(feeder)@.cursor() == skip_suffix(old(feeder)@.chars, old(feeder)@.cursor()),
    {
        proof {
            reveal_strlit("++");
            reveal_strlit("--");
        }
        if feeder.starts_with("++") {
            Self::take(feeder, ans, 2);
            1
        } else if feeder.starts_with("--") {
            Self::take(feeder, ans, 2);
            -1
        } else {
            assert(old(ans)@.text + feeder@.consumed_since(old(feeder)@) =~= old(ans)@.text);
            0
        }
    }

    fn eat_incdec(feeder: &mut Feeder, ans: &mut Self) -> (ok: bool)
        requires
            old(feeder)@.wf(),
        ensures
            final(feeder)@.follows(old(feeder)@),
            grown(old(ans)@, final(ans)@, final(feeder)@.consumed_since(old(feeder)@)),
            ok ==> final(feeder)@.pos > old(feeder)@.pos,
            !ok ==> final(feeder)@ == old(feeder)@ && final(ans)@ == old(ans)@,
            ok == ("++"@.is_prefix_of(old(feeder)@.remaining()) || "--"@.is_prefix_of(
                old(feeder)@.remaining(),
            )),
            ok ==> final(feeder)@.cursor() == old(feeder)@.cursor().after(2) && pushed(
                old(ans)@,
                final(ans)@,
                false,
            ) && final(ans)@.elements == old(ans)@.elements.push(
                if "++"@.is_prefix_of(old(feeder)@.remaining()) {
                    ElemView::Increment(1i64)
                } else {
                    ElemView::Increment(-1i64)
                },
            ),
    {
        proof {
            reveal_strlit("++");
            reveal_strlit("--");
        }
        if feeder.starts_with("++") {
            Self::take(feeder, ans, 2);
            push_token(ans, ArithElem::Increment(1));
        } else if feeder.starts_with("--") {
            Self::take(feeder, ans, 2);
            push_token(ans, ArithElem::Increment(-1));
        } else {
            assert(old(ans)@.text + feeder@.consumed_since(old(feeder)@) =~= old(ans)@.text);
            assert(old(ans)@.elements.is_prefix_of(ans@.elements));
            return false;
        }
        true
    }

    fn eat_conditional_op(feeder: &mut Feeder, ans: &mut Self, core: &mut ShellCore) -> (ok: bool)
        requires
            old(feeder)@.wf(),
        ensures
            *final(core) == *old(core),
            final(feeder)@.follows(old(feeder)@),
            grown(old(ans)@, final(ans)@, final(feeder)@.consumed_since(old(feeder)@)),
            ok ==> final(feeder)@.pos > old(feeder)@.pos,
            !ok ==> final(feeder)@ == old(feeder)@ && final(ans)@ == old(ans)@,
            ternary_end(old(feeder)@.chars, old(feeder)@.cursor()) == ended(ok, final(feeder)@),
            ok ==> pushed(old(ans)@, final(ans)@, false) && final(ans)@.elements == old(
                ans,
            )@.elements.push(ternary_at(old(feeder)@.chars, old(feeder)@.cursor())),
        decreases old(feeder)@.left(), old(feeder)@.unfed(), 4nat, 0nat,
    {
        proof {
            reveal(ternary_end);
            reveal(ternary_at);
            reveal(expr_end);
            reveal_strlit("?");
            reveal_strlit(":");
        }
        if !feeder.starts_with("?") {
            assert(old(ans)@.text + feeder@.consumed_since(old(feeder)@) =~= old(ans)@.text);
            assert(old(ans)@.elements.is_prefix_of(ans@.elements));
            return false;
        }
        proof {
            reveal_strlit("?");
            reveal_strlit(":");
        }
        let ghost start = feeder@;
        let ghost base = ans@.text;
        Self::take(feeder, ans, 1);
        let ghost a = feeder@;
        let left = Self::parse(feeder, core);
        let ghost b = feeder@;
        if let Some(l) = &left {
            ans.text.append(l.text.as_str());
        }
        proof {
            lemma_took_twice(start, a, b);
            assert(ans@.text =~= base + b.consumed_since(start));
        }
        if !feeder.starts_with(":") {
            push_token(
                ans,
                ArithElem::Ternary(
                    match left {
                        Some(l) => Some(Box::new(l)),
                        None => None,
                    },
                    None,
                ),
            );
            return true;
        }
        Self::take(feeder, ans, 1);
        let ghost c = feeder@;
        let right = Self::parse(feeder, core);
        if let Some(r) = &right {
            ans.text.append(r.text.as_str());
        }
        proof {
            lemma_took_twice(start, b, c);
            lemma_took_twice(start, c, feeder@);
            assert(ans@.text =~= base + feeder@.consumed_since(start));
        }
        push_token(
            ans,
            ArithElem::Ternary(
                match left {
                    Some(l) => Some(Box::new(l)),
                    None => None,
                },
                match right {
                    Some(r) => Some(Box::new(r)),
                    None => None,
                },
            ),
        );
        true
    }

    fn eat_word(feeder: &mut Feeder, ans: &mut Self, core: &mut ShellCore) -> (ok: bool)
        requires
            old(feeder)@.wf(),
        ensures
            *final(core) == *old(core),
            final(feeder)@.follows(old(feeder)@),
            grown(old(ans)@, final(ans)@, final(feeder)@.consumed_since(old(feeder)@)),
            ok ==> final(feeder)@.pos > old(feeder)@.pos,
            !ok ==> final(feeder)@ == old(feeder)@ && final(ans)@ == old(ans)@,
            operand_token(old(feeder)@.chars, old(feeder)@.cursor()) == ended(ok, final(feeder)@),
            ok ==> pushed(old(ans)@, final(ans)@, true) && final(ans)@.elements == old(
                ans,
            )@.elements.push(operand_token_at(old(feeder)@.chars, old(feeder)@.cursor())),
        decreases old(feeder)@.left(), old(feeder)@.unfed(), 4nat, 0nat,
    {
        proof {
            reveal(operand_token);
            reveal(operand_token_at);
        }
        let ghost start = feeder@;
        let ghost base = ans@.text;
        let word = match Word::parse_operand(feeder, core) {
            Some(w) => w,
            None => {
                assert(old(ans)@.text + feeder@.consumed_since(old(feeder)@) =~= old(ans)@.text);
                assert(old(ans)@.elements.is_prefix_of(ans@.elements));
                return false;
            },
        };
        let ghost a = feeder@;
        ans.text.append(word.text.as_str());
        assert(word.subwords@.len() > 0 ==> word@.subwords[0] == word.subwords@[0]@);
        assert(word@.text == start.chars.subrange(start.pos, a.pos));
        if word.subwords.len() == 1 && word.subwords[0].is_plain() {
            if let Some(n) = crate::elements::expr::arithmetic::integer::parse(word.text.as_str()) {
                push_token(ans, ArithElem::Integer(n));
                return true;
            }
            if is_float(word.text.as_str()) {
                push_token(ans, ArithElem::Float(word.text));
                return true;
            }
        }
        Self::eat_blank(feeder, ans, core);
        let ghost b = feeder@;
        let suffix = Self::eat_suffix(feeder, ans);
        proof {
            lemma_took_twice(start, a, b);
            lemma_took_twice(start, b, feeder@);
            assert(ans@.text =~= base + feeder@.consumed_since(start));
        }
        push_token(ans, ArithElem::Word(word, suffix));
        true
    }

    fn eat_unary_operator(feeder: &mut Feeder, ans: &mut Self, core: &mut ShellCore) -> (ok: bool)
        requires
            old(feeder)@.wf(),
        ensures
            *final(core) == *old(core),
            final(feeder)@.follows(old(feeder)@),
            grown(old(ans)@, final(ans)@, final(feeder)@.consumed_since(old(feeder)@)),
            ok ==> final(feeder)@.pos > old(feeder)@.pos,
            !ok ==> final(feeder)@ == old(feeder)@ && final(ans)@ == old(ans)@,
            ok == (!operand_last(old(ans)@.elements) && first_match(
                old(feeder)@.remaining(),
                unary_operators(),
            ) > 0),
            ok ==> final(feeder)@.cursor() == old(feeder)@.cursor().after(
                first_match(old(feeder)@.remaining(), unary_operators()) as int,
            ) && pushed(old(ans)@, final(ans)@, false) && final(ans)@.elements == old(
                ans,
            )@.elements.push(
                ElemView::UnaryOp(
                    old(feeder)@.remaining().take(
                        first_match(old(feeder)@.remaining(), unary_operators()) as int,
                    ),
                ),
            ),
    {
        assert(old(ans)@.text + feeder@.consumed_since(old(feeder)@) =~= old(ans)@.text);
        assert(old(ans)@.elements.is_prefix_of(ans@.elements));
        assert(ans.elements@.len() > 0 ==> ans@.elements.last() == ans.elements@.last()@);
        if ans.elements.len() > 0 {
            match &ans.elements[ans.elements.len() - 1] {
                ArithElem::Integer(_) | ArithElem::Float(_) | ArithElem::Word(_, _)
                | ArithElem::RightParen => {
                    return false;
                },
                _ => {},
            }
        }
        let len = feeder.scanner_unary_operator(core);
        if len == 0 {
            return false;
        }
        let s = Self::take(feeder, ans, len);
        push_token(ans, ArithElem::UnaryOp(s));
        true
    }

    fn eat_paren(feeder: &mut Feeder, ans: &mut Self) -> (ok: bool)
        requires
            old(feeder)@.wf(),
        ensures
            final(feeder)@.follows(old(feeder)@),
            final(ans)@.text == old(ans)@.text + final(feeder)@.consumed_since(old(feeder)@),
            old(ans)@.elements.is_prefix_of(final(ans)@.elements),
            ok ==> final(feeder)@.pos > old(feeder)@.pos,
            !ok ==> final(feeder)@ == old(feeder)@ && final(ans)@ == old(ans)@,
            ok == ("("@.is_prefix_of(old(feeder)@.remaining()) || (old(ans)@.paren_stack.len() > 0
                && ")"@.is_prefix_of(old(feeder)@.remaining()))),
            ok ==> final(feeder)@.cursor() == old(feeder)@.cursor().after(1)
                && final(ans)@.elements.len() == old(ans)@.elements.len() + 1,
            ok && "("@.is_prefix_of(old(feeder)@.remaining()) ==> !operand_last(
                final(ans)@.elements,
            ) && final(ans)@.paren_stack == old(ans)@.paren_stack.push('(')
                && final(ans)@.elements == old(ans)@.elements.push(ElemView::LeftParen),
            ok && !"("@.is_prefix_of(old(feeder)@.remaining()) ==> operand_last(
                final(ans)@.elements,
            ) && final(ans)@.paren_stack == old(ans)@.paren_stack.drop_last()
                && final(ans)@.elements == old(ans)@.elements.push(ElemView::RightParen),
    {
        proof {
            reveal_strlit("(");
            reveal_strlit(")");
        }
        if feeder.starts_with("(") {
            ans.paren_stack.push('(');
            push_token(ans, ArithElem::LeftParen);
            Self::take(feeder, ans, 1);
            return true;
        }
        if feeder.starts_with(")") && ans.paren_stack.len() > 0 {
            ans.paren_stack.pop();
            push_token(ans, ArithElem::RightParen);
            Self::take(feeder, ans, 1);
            return true;
        }
        assert(old(ans)@.text + feeder@.consumed_since(old(feeder)@) =~= old(ans)@.text);
        false
    }

    fn eat_binary_operator(feeder: &mut Feeder, ans: &mut Self, core: &mut ShellCore) -> (ok: bool)
        requires
            old(feeder)@.wf(),
        ensures
            *final(core) == *old(core),
            final(feeder)@.follows(old(feeder)@),
            grown(old(ans)@, final(ans)@, final(feeder)@.consumed_since(old(feeder)@)),
            ok ==> final(feeder)@.pos > old(feeder)@.pos,
            !ok ==> final(feeder)@ == old(feeder)@ && final(ans)@ == old(ans)@,
            ok == (first_match(old(feeder)@.remaining(), binary_operators()) > 0),
            ok ==> final(feeder)@.cursor() == old(feeder)@.cursor().after(
                first_match(old(feeder)@.remaining(), binary_operators()) as int,
            ) && pushed(old(ans)@, final(ans)@, false) && final(ans)@.elements == old(
                ans,
            )@.elements.push(
                ElemView::BinaryOp(
                    old(feeder)@.remaining().take(
                        first_match(old(feeder)@.remaining(), binary_operators()) as int,
                    ),
                ),
            ),
    {
        let len = feeder.scanner_binary_operator(core);
        if len == 0 {
            assert(old(ans)@.text + feeder@.consumed_since(old(feeder)@) =~= old(ans)@.text);
            assert(old(ans)@.elements.is_prefix_of(ans@.elements));
            return false;
        }
        let s = Self::take(feeder, ans, len);
        push_token(ans, ArithElem::BinaryOp(s));
        true
    }

    /// Takes the token with which the text begins.
    fn eat_token(feeder: &mut Feeder, ans: &mut Self, core: &mut ShellCore) -> (ok: bool)
        requires
            old(feeder)@.wf(),
        ensures
            *final(core) == *old(core),
            final(feeder)@.follows(old(feeder)@),
            final(ans)@.text == old(ans)@.text + final(feeder)@.consumed_since(old(feeder)@),
            ok ==> final(feeder)@.pos > old(feeder)@.pos,
            !ok ==> final(feeder)@ == old(feeder)@ && final(ans)@ == old(ans)@,
            expr_token(
                old(feeder)@.chars,
                old(feeder)@.cursor(),
                operand_last(old(ans)@.elements),
                old(ans)@.paren_stack.len(),
            ) == if ok {
                Some(
                    (
                        final(feeder)@.cursor(),
                        operand_last(final(ans)@.elements),
                        final(ans)@.paren_stack.len(),
                    ),
                )
            } else {
                None
            },
            ok ==> final(ans)@.elements == old(ans)@.elements.push(
                expr_token_at(
                    old(feeder)@.chars,
                    old(feeder)@.cursor(),
                    operand_last(old(ans)@.elements),
                    old(ans)@.paren_stack.len(),
                ),
            ),
            ok ==> final(ans)@.paren_stack == old(ans)@.paren_stack || final(ans)@.paren_stack
                == old(ans)@.paren_stack.push('(') || (old(ans)@.paren_stack.len() > 0
                && final(ans)@.paren_stack == old(ans)@.paren_stack.drop_last()),
        decreases old(feeder)@.left(), old(feeder)@.unfed(), 4nat, 1nat,
    {
        proof {
            reveal(expr_token);
            reveal(expr_token_at);
            reveal(ternary_at);
            reveal(operand_token_at);
            reveal(ternary_end);
            reveal(operand_token);
            reveal_strlit("++");
            reveal_strlit("--");
            reveal_strlit("(");
            reveal_strlit(")");
        }
        if Self::eat_conditional_op(feeder, ans, core) {
            return true;
        }
        if Self::eat_incdec(feeder, ans) {
            return true;
        }
        if Self::eat_unary_operator(feeder, ans, core) {
            return true;
        }
        if Self::eat_paren(feeder, ans) {
            return true;
        }
        if Self::eat_binary_operator(feeder, ans, core) {
            return true;
        }
        Self::eat_word(feeder, ans, core)
    }

    /// Reads an arithmetic expression: blanks, operators, parentheses and
    /// operands, as long as one of them follows. A closing parenthesis without
    /// an opening one, a colon, and anything that is none of these end the
    /// expression; at the end of the text one more line is asked for.
    pub fn parse(feeder: &mut Feeder, core: &mut ShellCore) -> (r: Option<ArithmeticExpr>)
        requires
            old(feeder)@.wf(),
        ensures
            *final(core) == *old(core),
            r matches Some(e) && final(feeder)@.took(old(feeder)@, e@.text) && e@ == expr_at(
                old(feeder)@.chars,
                old(feeder)@.cursor(),
            ),
            final(feeder)@.cursor() == expr_end(
                old(feeder)@.chars,
                old(feeder)@.cursor(),
                false,
                0,
            ),
        decreases old(feeder)@.left(), old(feeder)@.unfed(), 5nat, 0nat,
    {
        proof {
            reveal(expr_end);
            reveal(expr_tokens);
        }
        let mut ans = ArithmeticExpr::new();
        let ghost start = feeder@;
        assert(feeder@.consumed_since(start) =~= ans@.text);
        assert(ans@.elements =~= Seq::<ElemView>::empty());
        assert(ans@.paren_stack =~= open_parens(0));
        loop
            invariant_except_break
                expr_end(
                    start.chars,
                    feeder@.cursor(),
                    operand_last(ans@.elements),
                    ans@.paren_stack.len(),
                ) == expr_end(start.chars, start.cursor(), false, 0),
                expr_tokens(start.chars, feeder@.cursor(), ans@.elements, ans@.paren_stack.len())
                    == expr_tokens(start.chars, start.cursor(), Seq::empty(), 0),
            invariant
                ans@.paren_stack == open_parens(ans@.paren_stack.len()),
                start == old(feeder)@,
                start.wf(),
                feeder@.follows(start),
                ans@.text == feeder@.consumed_since(start),
                *core == *old(core),
            ensures
                expr_end(start.chars, start.cursor(), false, 0) == feeder@.cursor(),
                expr_tokens(start.chars, start.cursor(), Seq::empty(), 0) == (
                    ans@.elements,
                    ans@.paren_stack.len(),
                ),
            decreases feeder@.left(), feeder@.unfed(),
        {
            let ghost top = feeder@;
            let ghost stack = ans@.paren_stack;
            proof {
                reveal(expr_end);
                reveal(expr_tokens);
                reveal(expr_token);
                reveal(expr_token_at);
                reveal_strlit(":");
            }
            Self::eat_blank(feeder, &mut ans, core);
            let ghost before = feeder@;
            proof {
                lemma_took_twice(start, top, before);
            }
            if feeder.starts_with(":") {
                break ;
            }
            let ate = Self::eat_token(feeder, &mut ans, core);
            proof {
                lemma_took_twice(start, before, feeder@);
                assert(ans@.paren_stack =~= open_parens(ans@.paren_stack.len()));
            }
            if ate {
                continue ;
            }
            if feeder.len() != 0 || !feeder.feed_additional_line(core) {
                break ;
            }
            assert(feeder@.consumed_since(start) =~= before.consumed_since(start));
        }
        Some(ans)
    }
}

} // verus!
