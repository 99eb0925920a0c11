//! Arithmetic in its plain form: numbers, names with an increment behind
//! them, words, operators and parentheses between `((` and `))`.

use vstd::prelude::*;
use crate::elements::expr::arithmetic::calculator::calculate;
use crate::elements::expr::arithmetic::calculator::calculate_value;
use crate::elements::expr::arithmetic::elem::ArithElem;
use crate::elements::expr::arithmetic::elem::ElemView;
use crate::elements::expr::arithmetic::elem::elem_views;
use crate::elements::expr::arithmetic::integer::integer_value;
use crate::elements::expr::arithmetic::word::operand_error;
use crate::elements::expr::arithmetic::word::syntax;
use crate::elements::subword::Parameter;
use crate::elements::subword::Subword;
use crate::elements::subword::SubwordView;
use crate::elements::word::Word;
use crate::elements::word::WordView;
use crate::elements::word::expansion::word_value;
use crate::elements::grammar::Cursor;
use crate::elements::grammar::behind;
use crate::elements::grammar::ended;
use crate::elements::grammar::fed;
use crate::elements::grammar::operand_at;
use crate::elements::grammar::operand_end;
use crate::elements::grammar::skip_run;
use crate::elements::grammar::skip_suffix;
use crate::elements::grammar::step;
use crate::feeder::scanner::CharClass;
use crate::feeder::scanner::binary_operators;
use crate::feeder::scanner::first_match;
use crate::feeder::scanner::name_length;
use crate::feeder::scanner::run_length;
use crate::feeder::Feeder;
use crate::feeder::FeederView;
use crate::feeder::lemma_took_twice;
use crate::shell::CoreView;
use crate::shell::ShellCore;
use crate::text::decimal;
use crate::text::find_char;
use crate::text::i64_to_string;
use crate::text::str_is;
use crate::text::to_chars;

verus! {

#[derive(Debug)]
pub enum CalcElement {
    UnaryOp(String),
    BinaryOp(String),
    Num(i64),
    /// A name and what a `++` or `--` behind it adds.
    Name(String, i32),
    Word(Word),
    LeftParen,
    RightParen,
}

/// A token as plain mathematical data.
pub enum CalcView {
    UnaryOp(Seq<char>),
    BinaryOp(Seq<char>),
    Num(i64),
    Name(Seq<char>, i32),
    Word(WordView),
    LeftParen,
    RightParen,
}

impl View for CalcElement {
    type V = CalcView;

    open spec fn view(&self) -> CalcView {
        match self {
            CalcElement::UnaryOp(s) => CalcView::UnaryOp(s@),
            CalcElement::BinaryOp(s) => CalcView::BinaryOp(s@),
            CalcElement::Num(n) => CalcView::Num(*n),
            CalcElement::Name(s, i) => CalcView::Name(s@, *i),
            CalcElement::Word(w) => CalcView::Word(w@),
            CalcElement::LeftParen => CalcView::LeftParen,
            CalcElement::RightParen => CalcView::RightParen,
        }
    }
}

/// The views of a list of tokens.
pub open spec fn calc_views(v: Seq<CalcElement>) -> Seq<CalcView> {
    v.map_values(|e: CalcElement| e@)
}

/// What stands last among the tokens, as far as the parser asks: a number, a
/// name or a word, or anything else or nothing.
pub enum Last {
    Number,
    Operand,
    Other,
}

/// What stands last among `elems`.
pub open spec fn last_of(elems: Seq<CalcView>) -> Last {
    if elems.len() == 0 {
        Last::Other
    } else {
        match elems.last() {
            CalcView::Num(_) => Last::Number,
            CalcView::Name(_, _) => Last::Operand,
            CalcView::Word(_) => Last::Operand,
            _ => Last::Other,
        }
    }
}

/// Where the number at `c` ends: digits, at most 18 of them, that are a
/// number as the shell writes it. There is none behind a number.
pub open spec fn number_end(chars: Seq<char>, c: Cursor, last: Last) -> Option<Cursor> {
    let n = run_length(c.sees(chars), 0, CharClass::Digit);
    if last != Last::Number && n <= 18 && integer_value(c.sees(chars).take(n as int)) is Some {
        step(chars, c, n)
    } else {
        None
    }
}

/// Where the name at `c` ends: behind the name, blanks behind it, and `++`
/// or `--` where one of them follows.
pub open spec fn name_end(chars: Seq<char>, c: Cursor) -> Option<Cursor> {
    match step(chars, c, name_length(c.sees(chars))) {
        Some(x) => Some(skip_suffix(chars, skip_run(chars, x, CharClass::Space))),
        None => None,
    }
}

/// Where the token at `c` ends, what it is, and how many parentheses are
/// open behind it; `last` and `depth` say the same of what stands before it.
/// The kinds are tried in this order: names, `++` and `--`, a sign where no
/// operand stands before, parentheses, binary operators, numbers, words. A
/// closing parenthesis that closes nothing is no token.
pub open spec fn calc_token(chars: Seq<char>, c: Cursor, last: Last, depth: nat) -> Option<
    (Cursor, Last, nat),
> {
    let s = c.sees(chars);
    if name_end(chars, c) is Some {
        Some((name_end(chars, c)->0, Last::Operand, depth))
    } else if behind(chars, c, "++"@) is Some {
        Some((behind(chars, c, "++"@)->0, Last::Other, depth))
    } else if behind(chars, c, "--"@) is Some {
        Some((behind(chars, c, "--"@)->0, Last::Other, depth))
    } else if last == Last::Other && ("+"@.is_prefix_of(s) || "-"@.is_prefix_of(s)) {
        match step(chars, c, 1) {
            Some(n) => Some((n, Last::Other, depth)),
            None => None,
        }
    } else if behind(chars, c, "("@) is Some {
        Some((behind(chars, c, "("@)->0, Last::Other, depth + 1))
    } else if depth > 0 && behind(chars, c, ")"@) is Some {
        Some((behind(chars, c, ")"@)->0, Last::Other, (depth - 1) as nat))
    } else if step(chars, c, first_match(s, binary_operators())) is Some {
        Some((step(chars, c, first_match(s, binary_operators()))->0, Last::Other, depth))
    } else if number_end(chars, c, last) is Some {
        Some((number_end(chars, c, last)->0, Last::Number, depth))
    } else {
        match operand_end(chars, c) {
            Some(e) => Some((e.c, Last::Operand, depth)),
            None => None,
        }
    }
}

/// What `++` or `--` at `c` adds to the name before it: 1, -1, or 0 where
/// neither stands there.
pub open spec fn name_suffix(chars: Seq<char>, c: Cursor) -> i32 {
    if "++"@.is_prefix_of(c.sees(chars)) {
        1i32
    } else if "--"@.is_prefix_of(c.sees(chars)) {
        -1i32
    } else {
        0i32
    }
}

/// The tokens `tokens` with the token at `c` behind them, where `depth`
/// parentheses are open. Before a sign, a parenthesis, a binary operator and
/// a number, a `++` or `--` at the end of the tokens is taken apart.
pub open spec fn calc_pushed(chars: Seq<char>, c: Cursor, tokens: Seq<CalcView>, depth: nat) -> Seq<
    CalcView,
> {
    let s = c.sees(chars);
    let apart = Calc::taken_apart(tokens);
    if name_end(chars, c) is Some {
        tokens.push(
            CalcView::Name(
                s.take(name_length(s) as int),
                name_suffix(
                    chars,
                    skip_run(chars, c.after(name_length(s) as int), CharClass::Space),
                ),
            ),
        )
    } else if behind(chars, c, "++"@) is Some {
        tokens.push(CalcView::UnaryOp("++"@))
    } else if behind(chars, c, "--"@) is Some {
        tokens.push(CalcView::UnaryOp("--"@))
    } else if last_of(tokens) == Last::Other && ("+"@.is_prefix_of(s) || "-"@.is_prefix_of(s)) {
        apart.push(CalcView::UnaryOp(s.take(1)))
    } else if behind(chars, c, "("@) is Some {
        apart.push(CalcView::LeftParen)
    } else if depth > 0 && behind(chars, c, ")"@) is Some {
        apart.push(CalcView::RightParen)
    } else if step(chars, c, first_match(s, binary_operators())) is Some {
        apart.push(CalcView::BinaryOp(s.take(first_match(s, binary_operators()) as int)))
    } else if number_end(chars, c, last_of(tokens)) is Some {
        apart.push(
            CalcView::Num(
                integer_value(s.take(run_length(s, 0, CharClass::Digit) as int))->0,
            ),
        )
    } else {
        tokens.push(CalcView::Word(operand_at(chars, c)))
    }
}

/// The tokens of an expression that goes on at `c`, behind the tokens
/// `so_far`, where `depth` parentheses are open.
#[verifier::opaque]
pub open spec fn calc_tokens(chars: Seq<char>, c: Cursor, so_far: Seq<CalcView>, depth: nat) -> Seq<
    CalcView,
>
    decreases chars.len() - c.pos, chars.len() - c.limit,
{
    let b = skip_run(chars, c, CharClass::Space);
    if !c.within(chars) {
        so_far
    } else {
        match calc_token(chars, b, last_of(so_far), depth) {
            Some((n, l, d)) => if b.reaches(n, chars) {
                calc_tokens(chars, n, calc_pushed(chars, b, so_far, depth), d)
            } else {
                so_far
            },
            None => if b.sees(chars).len() != 0 {
                so_far
            } else {
                match fed(chars, b) {
                    Some(f) => calc_tokens(chars, f, so_far, depth),
                    None => so_far,
                }
            },
        }
    }
}

/// Where an expression ends that goes on at `c`: at the `))` that follows
/// its tokens. Tokens are taken as long as there are any, so a parenthesis
/// that is open is closed before the `))` is looked for. `None` where
/// something else follows the tokens, and where the input ends before. At the
/// end of the lines handed over one more line is taken.
pub open spec fn calc_rest(chars: Seq<char>, c: Cursor, last: Last, depth: nat) -> Option<Cursor>
    decreases chars.len() - c.pos, chars.len() - c.limit,
{
    let b = skip_run(chars, c, CharClass::Space);
    if !c.within(chars) {
        None
    } else {
        match calc_token(chars, b, last, depth) {
            Some((n, l, d)) => if b.reaches(n, chars) {
                calc_rest(chars, n, l, d)
            } else {
                None
            },
            None => if "))"@.is_prefix_of(b.sees(chars)) {
                Some(b)
            } else if b.sees(chars).len() != 0 {
                None
            } else {
                match fed(chars, b) {
                    Some(f) => calc_rest(chars, f, last, depth),
                    None => None,
                }
            },
        }
    }
}

#[derive(Debug)]
pub struct Calc {
    /// The source text.
    pub text: String,
    /// The tokens in source order.
    pub elements: Vec<CalcElement>,
    /// One `(` for each parenthesis that is open at the end of the tokens.
    pub paren_stack: Vec<char>,
}

/// The token that stands for a value in the evaluation, where `text` is the
/// source text of a word and `inc` the increment of a name: a value from a
/// quoted word is no number and is kept between quotes; an empty value is 0;
/// a number is itself; anything else is 0 where the name is incremented, and
/// an error where it is not.
pub open spec fn value_elem(val: Seq<char>, text: Seq<char>, inc: i32) -> Result<ElemView, Seq<char>> {
    if text.contains('\'') {
        Ok(ElemView::Word(quoted_word(val), 0))
    } else if val.len() == 0 {
        Ok(ElemView::Integer(0))
    } else {
        match integer_value(val) {
            Some(n) => Ok(ElemView::Integer(n)),
            None => if inc != 0 {
                Ok(ElemView::Integer(0))
            } else {
                Err(operand_error(val))
            },
        }
    }
}

/// A word that holds `val` between single quotes.
pub open spec fn quoted_word(val: Seq<char>) -> WordView {
    let text = seq!['\''] + val + seq!['\''];
    WordView { text, subwords: seq![SubwordView::Parameter(text)] }
}

/// One token made ready for the evaluation, and the state of the shell after
/// it: a name gives way to the number that its variable holds, and the
/// variable takes that number with the increment added where there is one; a
/// word gives way to what it stands for.
pub open spec fn evaluated_elem(e: CalcView, text: Seq<char>, st: CoreView) -> (
    Result<ElemView, Seq<char>>,
    CoreView,
) {
    match e {
        CalcView::Name(s, i) => {
            let val = st.value_of(s);
            match value_elem(val, Seq::empty(), i) {
                Ok(elem) => (
                    Ok(elem),
                    if i != 0 {
                        st.assign(s, decimal(elem->Integer_0.wrapping_add(i as i64) as int))
                    } else {
                        st
                    },
                ),
                Err(msg) => (Err(msg), st),
            }
        },
        CalcView::Word(w) => {
            let (value, after) = word_value(w, st);
            match value {
                Some(val) => (value_elem(val, w.text, 0), after),
                None => (Err(text + ": wrong substitution"@), after),
            }
        },
        CalcView::UnaryOp(s) => (Ok(ElemView::UnaryOp(s)), st),
        CalcView::BinaryOp(s) => (Ok(ElemView::BinaryOp(s)), st),
        CalcView::Num(n) => (Ok(ElemView::Integer(n)), st),
        CalcView::LeftParen => (Ok(ElemView::LeftParen), st),
        CalcView::RightParen => (Ok(ElemView::RightParen), st),
    }
}

/// All tokens made ready for the evaluation, from left to right; the first
/// error ends it.
pub open spec fn evaluated(elems: Seq<CalcView>, text: Seq<char>, st: CoreView) -> (
    Result<Seq<ElemView>, Seq<char>>,
    CoreView,
)
    decreases elems.len(),
{
    if elems.len() == 0 {
        (Ok(Seq::empty()), st)
    } else {
        let (front, mid) = evaluated(elems.drop_last(), text, st);
        match front {
            Ok(done) => {
                let (last, after) = evaluated_elem(elems.last(), text, mid);
                match last {
                    Ok(e) => (Ok(done.push(e)), after),
                    Err(msg) => (Err(msg), after),
                }
            },
            Err(msg) => (Err(msg), mid),
        }
    }
}

proof fn lemma_evaluation_fails(elems: Seq<CalcView>, n: int, text: Seq<char>, st: CoreView)
    requires
        0 <= n <= elems.len(),
        evaluated(elems.take(n), text, st).0 is Err,
    ensures
        evaluated(elems, text, st) == evaluated(elems.take(n), text, st),
    decreases elems.len() - n,
{
    if n < elems.len() {
        assert(elems.take(n + 1).drop_last() =~= elems.take(n));
        lemma_evaluation_fails(elems, n + 1, text, st);
    } else {
        assert(elems.take(n) =~= elems);
    }
}

/// The value of the tokens in decimal notation, or the message of the error
/// that stopped the evaluation, and the state of the shell after it.
pub open spec fn calc_value(elems: Seq<CalcView>, text: Seq<char>, st: CoreView) -> (
    Result<Seq<char>, Seq<char>>,
    CoreView,
) {
    let (ready, mid) = evaluated(elems, text, st);
    match ready {
        Ok(tokens) => {
            let o = calculate_value(tokens, mid);
            match o.result {
                Ok(n) => (Ok(decimal(n as int)), o.st),
                Err(msg) => (Err(text + ": "@ + msg), o.st),
            }
        },
        Err(msg) => (Err(msg), mid),
    }
}

/// What becomes of the tokens made ready so far, and of the state of the
/// shell, with one more token.
pub open spec fn evaluated_next(
    front: Result<Seq<ElemView>, Seq<char>>,
    mid: CoreView,
    e: CalcView,
    text: Seq<char>,
) -> (Result<Seq<ElemView>, Seq<char>>, CoreView) {
    match front {
        Ok(done) => {
            let (last, after) = evaluated_elem(e, text, mid);
            match last {
                Ok(x) => (Ok(done.push(x)), after),
                Err(msg) => (Err(msg), after),
            }
        },
        Err(msg) => (Err(msg), mid),
    }
}

/// The tokens are made ready one after another.
proof fn lemma_evaluated_push(x: Seq<CalcView>, e: CalcView, text: Seq<char>, st: CoreView)
    ensures
        evaluated(x.push(e), text, st) == evaluated_next(
            evaluated(x, text, st).0,
            evaluated(x, text, st).1,
            e,
            text,
        ),
{
    assert(x.push(e).drop_last() =~= x);
    assert(x.push(e).last() == e);
}

/// The tokens made ready behind an opening parenthesis.
pub open spec fn behind_paren(r: Result<Seq<ElemView>, Seq<char>>) -> Result<
    Seq<ElemView>,
    Seq<char>,
> {
    match r {
        Ok(t) => Ok(seq![ElemView::LeftParen] + t),
        Err(m) => Err(m),
    }
}

/// What the tokens behind an opening parenthesis become, once they are made
/// ready for the evaluation, is what they become without it, behind the
/// parenthesis; the state of the shell after it is the same.
proof fn lemma_evaluated_behind_paren(elems: Seq<CalcView>, text: Seq<char>, st: CoreView)
    ensures
        evaluated(seq![CalcView::LeftParen] + elems, text, st).0 == behind_paren(
            evaluated(elems, text, st).0,
        ),
        evaluated(seq![CalcView::LeftParen] + elems, text, st).1 == evaluated(elems, text, st).1,
        evaluated(elems, text, st).0 matches Ok(t) ==> t.len() == elems.len(),
    decreases elems.len(),
{
    let open = seq![CalcView::LeftParen];
    if elems.len() == 0 {
        assert(elems =~= Seq::<CalcView>::empty());
        assert(open + elems =~= Seq::<CalcView>::empty().push(CalcView::LeftParen));
        lemma_evaluated_push(Seq::<CalcView>::empty(), CalcView::LeftParen, text, st);
        assert(Seq::<ElemView>::empty().push(ElemView::LeftParen) =~= seq![ElemView::LeftParen]
            + Seq::<ElemView>::empty());
    } else {
        let d = elems.drop_last();
        let l = elems.last();
        lemma_evaluated_behind_paren(d, text, st);
        assert(elems =~= d.push(l));
        assert(open + elems =~= (open + d).push(l));
        lemma_evaluated_push(d, l, text, st);
        lemma_evaluated_push(open + d, l, text, st);
        let front = evaluated(d, text, st).0;
        let mid = evaluated(d, text, st).1;
        if let Ok(done) = front {
            if let Ok(x) = evaluated_elem(l, text, mid).0 {
                assert((seq![ElemView::LeftParen] + done).push(x) =~= seq![ElemView::LeftParen]
                    + done.push(x));
            }
        }
    }
}

/// The value of an expression between a pair of parentheses is the value of
/// the expression, and the state of the shell after it is the same, for every
/// expression that has a token and whose tokens can be rearranged.
pub proof fn lemma_calc_parentheses(elems: Seq<CalcView>, text: Seq<char>, st: CoreView)
    requires
        elems.len() > 0,
        evaluated(elems, text, st).0 matches Ok(t)
            ==> crate::elements::expr::arithmetic::rev_polish::rearranged(t) is Ok,
    ensures
        calc_value(
            seq![CalcView::LeftParen] + elems + seq![CalcView::RightParen],
            text,
            st,
        ) == calc_value(elems, text, st),
{
    let inner = seq![CalcView::LeftParen] + elems;
    let all = inner + seq![CalcView::RightParen];
    lemma_evaluated_behind_paren(elems, text, st);
    assert(all =~= inner.push(CalcView::RightParen));
    lemma_evaluated_push(inner, CalcView::RightParen, text, st);
    if let Ok(t) = evaluated(elems, text, st).0 {
        let mid = evaluated(elems, text, st).1;
        assert((seq![ElemView::LeftParen] + t).push(ElemView::RightParen) =~= seq![
            ElemView::LeftParen,
        ] + t + seq![ElemView::RightParen]);
        crate::elements::expr::arithmetic::calculator::lemma_parenthesized_value(t, mid);
    }
}

impl Calc {
    pub fn new() -> (c: Calc)
        ensures
            c.text@.len() == 0,
            c.elements@.len() == 0,
            c.paren_stack@.len() == 0,
    {
        Calc { text: String::new(), elements: Vec::new(), paren_stack: Vec::new() }
    }

    fn value_to_num(val: &String, text: &str, inc: i32) -> (r: Result<ArithElem, String>)
        ensures
            match value_elem(val@, text@, inc) {
                Ok(e) => r matches Ok(x) && x@ == e,
                Err(m) => r matches Err(msg) && msg@ == m,
            },
    {
        let t = to_chars(text);
        if find_char(&t, '\'').is_some() {
            let mut quoted = String::new();
            quoted.push('\'');
            quoted.append(val.as_str());
            quoted.push('\'');
            assert(quoted@ =~= seq!['\''] + val@ + seq!['\'']);
            let mut subwords: Vec<Subword> = Vec::new();
            subwords.push(Subword::Parameter(Parameter { text: quoted.clone() }));
            let word = Word { text: quoted, subwords };
            assert(word@.subwords =~= seq![SubwordView::Parameter(word@.text)]);
            Ok(ArithElem::Word(word, 0))
        } else if val.as_str().unicode_len() == 0 {
            Ok(ArithElem::Integer(0))
        } else if let Some(n) = crate::elements::expr::arithmetic::integer::parse(val.as_str()) {
            Ok(ArithElem::Integer(n))
        } else if inc != 0 {
            Ok(ArithElem::Integer(0))
        } else {
            Err(syntax(val.as_str()))
        }
    }

    fn evaluate_elem(&self, e: &CalcElement, core: &mut ShellCore) -> (r: Result<ArithElem, String>)
        ensures
            final(core)@ == evaluated_elem(e@, self.text@, old(core)@).1,
            match evaluated_elem(e@, self.text@, old(core)@).0 {
                Ok(x) => r matches Ok(out) && out@ == x,
                Err(m) => r matches Err(msg) && msg@ == m,
            },
    {
        match e {
            CalcElement::Name(s, i) => {
                let val = core.get_var(s.as_str());
                match Self::value_to_num(&val, "", *i) {
                    Ok(elem) => {
                        proof {
                            reveal_strlit("");
                            assert(""@ =~= Seq::<char>::empty());
                        }
                        if *i != 0 {
                            if let ArithElem::Integer(n) = elem {
                                core.set_var(
                                    s.as_str(),
                                    i64_to_string(n.wrapping_add(*i as i64)).as_str(),
                                );
                            }
                        }
                        Ok(elem)
                    },
                    Err(msg) => {
                        proof {
                            reveal_strlit("");
                            assert(""@ =~= Seq::<char>::empty());
                        }
                        Err(msg)
                    },
                }
            },
            CalcElement::Word(w) => {
                match w.eval_as_value(core) {
                    Some(v) => Self::value_to_num(&v, w.text.as_str(), 0),
                    None => {
                        let mut msg = self.text.clone();
                        msg.append(": wrong substitution");
                        Err(msg)
                    },
                }
            },
            CalcElement::UnaryOp(s) => Ok(ArithElem::UnaryOp(s.clone())),
            CalcElement::BinaryOp(s) => Ok(ArithElem::BinaryOp(s.clone())),
            CalcElement::Num(n) => Ok(ArithElem::Integer(*n)),
            CalcElement::LeftParen => Ok(ArithElem::LeftParen),
            CalcElement::RightParen => Ok(ArithElem::RightParen),
        }
    }

    /// Makes the tokens ready for the evaluation.
    fn evaluate_elems(&self, core: &mut ShellCore) -> (r: Result<Vec<ArithElem>, String>)
        ensures
            final(core)@ == evaluated(calc_views(self.elements@), self.text@, old(core)@).1,
            match evaluated(calc_views(self.elements@), self.text@, old(core)@).0 {
                Ok(tokens) => r matches Ok(out) && elem_views(out@) == tokens,
                Err(m) => r matches Err(msg) && msg@ == m,
            },
    {
        let mut ans: Vec<ArithElem> = Vec::new();
        let ghost elems = calc_views(self.elements@);
        let ghost start = old(core)@;
        let mut i: usize = 0;
        assert(elems.take(0) =~= Seq::<CalcView>::empty());
        assert(elem_views(ans@) =~= Seq::<ElemView>::empty());
        while i < self.elements.len()
            invariant
                i <= self.elements.len(),
                elems == calc_views(self.elements@),
                start == old(core)@,
                evaluated(elems.take(i as int), self.text@, start) == (
                    Ok::<Seq<ElemView>, Seq<char>>(elem_views(ans@)),
                    core@,
                ),
            decreases self.elements.len() - i,
        {
            proof {
                assert(elems.take(i + 1).drop_last() =~= elems.take(i as int));
                assert(elems.take(i + 1).last() == self.elements@[i as int]@);
            }
            let ghost before = elem_views(ans@);
            match self.evaluate_elem(&self.elements[i], core) {
                Ok(e) => {
                    ans.push(e);
                    assert(elem_views(ans@) =~= before.push(e@));
                },
                Err(msg) => {
                    proof {
                        assert(evaluated(elems.take(i + 1), self.text@, start).0 is Err);
                        lemma_evaluation_fails(elems, i + 1, self.text@, start);
                    }
                    return Err(msg);
                },
            }
            i += 1;
        }
        assert(elems.take(i as int) =~= elems);
        Ok(ans)
    }

    /// Evaluates the expression. The result is the value in decimal notation,
    /// or the message of the error, which is for the caller to show.
    pub fn eval(&mut self, core: &mut ShellCore) -> (r: Result<String, String>)
        ensures
            final(self).text == old(self).text,
            calc_views(final(self).elements@) == calc_views(old(self).elements@),
            final(core)@ == calc_value(calc_views(old(self).elements@), old(self).text@, old(core)@).1,
            match calc_value(calc_views(old(self).elements@), old(self).text@, old(core)@).0 {
                Ok(v) => r matches Ok(out) && out@ == v,
                Err(m) => r matches Err(msg) && msg@ == m,
            },
    {
        let es = match self.evaluate_elems(core) {
            Ok(data) => data,
            Err(err_msg) => {
                return Err(err_msg);
            },
        };
        match calculate(&es, core) {
            Ok(ArithElem::Integer(n)) => Ok(i64_to_string(n)),
            Ok(_) => {
                let mut m = self.text.clone();
                m.append(": ");
                m.append("invalid operand");
                Err(m)
            },
            Err(msg) => {
                let mut m = self.text.clone();
                m.append(": ");
                m.append(msg.as_str());
                Err(m)
            },
        }
    }

    /// What stands last among the tokens.
    pub open spec fn last(&self) -> Last {
        last_of(calc_views(self.elements@))
    }

    /// How the expression grows while the parser reads: the text by what was
    /// consumed.
    pub open spec fn grown(&self, before: &Calc, consumed: Seq<char>) -> bool {
        self.text@ == before.text@ + consumed
    }

    fn take(feeder: &mut Feeder, ans: &mut Self, n: usize) -> (s: String)
        requires
            old(feeder)@.wf(),
            n <= old(feeder)@.remaining().len(),
        ensures
            s@ == old(feeder)@.remaining().take(n as int),
            final(feeder)@ == (FeederView { pos: old(feeder)@.pos + n, ..old(feeder)@ }),
            final(feeder)@.took(old(feeder)@, s@),
            final(ans).text@ == old(ans).text@ + s@,
            final(ans).elements == old(ans).elements,
            final(ans).paren_stack == old(ans).paren_stack,
    {
        let s = feeder.consume(n);
        ans.text.append(s.as_str());
        s
    }

    fn eat_blank(feeder: &mut Feeder, ans: &mut Self, core: &mut ShellCore)
        requires
            old(feeder)@.wf(),
        ensures
            *final(core) == *old(core),
            final(feeder)@.follows(old(feeder)@),
            final(feeder)@.limit == old(feeder)@.limit,
            final(ans).grown(old(ans), final(feeder)@.consumed_since(old(feeder)@)),
            final(ans).elements == old(ans).elements,
            final(ans).paren_stack == old(ans).paren_stack,
            final(feeder)@.cursor() == skip_run(
                old(feeder)@.chars,
                old(feeder)@.cursor(),
                CharClass::Space,
            ),
    {
        let len = feeder.scanner_multiline_blank(core);
        Self::take(feeder, ans, len);
    }

    fn eat_integer(feeder: &mut Feeder, ans: &mut Self, core: &mut ShellCore) -> (ok: bool)
        requires
            old(feeder)@.wf(),
        ensures
            *final(core) == *old(core),
            final(feeder)@.follows(old(feeder)@),
            final(ans).grown(old(ans), final(feeder)@.consumed_since(old(feeder)@)),
            ok ==> final(feeder)@.pos > old(feeder)@.pos,
            !ok ==> final(feeder)@ == old(feeder)@ && final(ans).elements == old(ans).elements
                && final(ans).paren_stack == old(ans).paren_stack,
            number_end(old(feeder)@.chars, old(feeder)@.cursor(), old(ans).last()) == ended(
                ok,
                final(feeder)@,
            ),
            ok ==> final(ans).last() == Last::Number && final(ans).paren_stack == old(
                ans,
            ).paren_stack && calc_views(final(ans).elements@) == Self::taken_apart(
                calc_views(old(ans).elements@),
            ).push(
                CalcView::Num(
                    integer_value(
                        old(feeder)@.remaining().take(
                            run_length(old(feeder)@.remaining(), 0, CharClass::Digit) as int,
                        ),
                    )->0,
                ),
            ),
    {
        assert(old(ans).text@ + feeder@.consumed_since(old(feeder)@) =~= old(ans).text@);
        assert(ans.elements@.len() > 0 ==> calc_views(ans.elements@).last()
            == ans.elements@.last()@);
        if ans.elements.len() > 0 {
            if let CalcElement::Num(_) = &ans.elements[ans.elements.len() - 1] {
                return false;
            }
        }
        let len = feeder.scanner_nonnegative_integer(core);
        if len == 0 || len > 18 {
            return false;
        }
        let digits = feeder.refer(len);
        let n = match crate::elements::expr::arithmetic::integer::parse(digits.as_str()) {
            Some(n) => n,
            None => {
                return false;
            },
        };
        ans.inc_dec_to_unarys();
        Self::take(feeder, ans, len);
        let ghost list = calc_views(ans.elements@);
        ans.elements.push(CalcElement::Num(n));
        assert(calc_views(ans.elements@) =~= list.push(CalcView::Num(n)));
        true
    }

    fn eat_name(feeder: &mut Feeder, ans: &mut Self, core: &mut ShellCore) -> (ok: bool)
        requires
            old(feeder)@.wf(),
        ensures
            *final(core) == *old(core),
            final(feeder)@.follows(old(feeder)@),
            final(ans).grown(old(ans), final(feeder)@.consumed_since(old(feeder)@)),
            ok ==> final(feeder)@.pos > old(feeder)@.pos,
            !ok ==> final(feeder)@ == old(feeder)@ && final(ans).elements == old(ans).elements
                && final(ans).paren_stack == old(ans).paren_stack,
            name_end(old(feeder)@.chars, old(feeder)@.cursor()) == ended(ok, final(feeder)@),
            ok ==> final(ans).last() == Last::Operand && final(ans).paren_stack == old(
                ans,
            ).paren_stack && calc_views(final(ans).elements@) == calc_views(
                old(ans).elements@,
            ).push(
                CalcView::Name(
                    old(feeder)@.remaining().take(name_length(old(feeder)@.remaining()) as int),
                    name_suffix(
                        old(feeder)@.chars,
                        skip_run(
                            old(feeder)@.chars,
                            old(feeder)@.cursor().after(
                                name_length(old(feeder)@.remaining()) as int,
                            ),
                            CharClass::Space,
                        ),
                    ),
                ),
            ),
    {
        let ghost start = feeder@;
        let len = feeder.scanner_name(core);
        if len == 0 {
            assert(old(ans).text@ + feeder@.consumed_since(old(feeder)@) =~= old(ans).text@);
            return false;
        }
        let s = Self::take(feeder, ans, len);
        let ghost a = feeder@;
        let ghost name = s@;
        let ghost list = calc_views(ans.elements@);
        Self::eat_blank(feeder, ans, core);
        let ghost b = feeder@;
        proof {
            reveal_strlit("++");
            reveal_strlit("--");
        }
        if feeder.starts_with("++") {
            ans.elements.push(CalcElement::Name(s, 1));
            Self::take(feeder, ans, 2);
        } else if feeder.starts_with("--") {
            ans.elements.push(CalcElement::Name(s, -1));
            Self::take(feeder, ans, 2);
        } else {
            ans.elements.push(CalcElement::Name(s, 0));
        }
        assert(calc_views(ans.elements@) =~= list.push(
            CalcView::Name(name, name_suffix(start.chars, b.cursor())),
        ));
        proof {
            lemma_took_twice(start, a, b);
            lemma_took_twice(start, b, feeder@);
            assert(ans.text@ =~= old(ans).text@ + feeder@.consumed_since(start));
        }
        true
    }

    fn eat_incdec(feeder: &mut Feeder, ans: &mut Self) -> (ok: bool)
        requires
            old(feeder)@.wf(),
        ensures
            final(feeder)@.follows(old(feeder)@),
            final(ans).grown(old(ans), final(feeder)@.consumed_since(old(feeder)@)),
            ok ==> final(feeder)@.pos > old(feeder)@.pos,
            !ok ==> final(feeder)@ == old(feeder)@ && final(ans).elements == old(ans).elements
                && final(ans).paren_stack == old(ans).paren_stack,
            ok == ("++"@.is_prefix_of(old(feeder)@.remaining()) || "--"@.is_prefix_of(
                old(feeder)@.remaining(),
            )),
            ok ==> final(feeder)@.cursor() == old(feeder)@.cursor().after(2) && final(ans).last()
                == Last::Other && final(ans).paren_stack == old(ans).paren_stack && calc_views(
                final(ans).elements@,
            ) == calc_views(old(ans).elements@).push(
                CalcView::UnaryOp(
                    if "++"@.is_prefix_of(old(feeder)@.remaining()) {
                        "++"@
                    } else {
                        "--"@
                    },
                ),
            ),
    {
        proof {
            reveal_strlit("++");
            reveal_strlit("--");
        }
        if feeder.starts_with("++") {
            Self::take(feeder, ans, 2);
            ans.elements.push(CalcElement::UnaryOp(String::from_str("++")));
        } else if feeder.starts_with("--") {
            Self::take(feeder, ans, 2);
            ans.elements.push(CalcElement::UnaryOp(String::from_str("--")));
        } else {
            assert(old(ans).text@ + feeder@.consumed_since(old(feeder)@) =~= old(ans).text@);
            return false;
        }
        assert(calc_views(ans.elements@) =~= calc_views(old(ans).elements@).push(
            ans.elements@.last()@,
        ));
        true
    }

    /// Whether an operator at the end of the tokens `elems` has nothing to its
    /// left that it could work on, so that a sign behind it is a sign.
    pub open spec fn at_operand_start(elems: Seq<CalcView>) -> bool {
        elems.len() == 0 || elems.last() is UnaryOp || elems.last() is BinaryOp || elems.last()
            is LeftParen
    }

    /// The tokens with a `++` or `--` at their end taken apart into two signs:
    /// the first is an operator between two operands where an operand stands
    /// before it, a sign where none does; the second is a sign.
    pub open spec fn taken_apart(elems: Seq<CalcView>) -> Seq<CalcView> {
        if elems.len() > 0 && (elems.last() == CalcView::UnaryOp("++"@) || elems.last()
            == CalcView::UnaryOp("--"@)) {
            let pm: Seq<char> = if elems.last() == CalcView::UnaryOp("++"@) {
                "+"@
            } else {
                "-"@
            };
            let rest = elems.drop_last();
            rest.push(
                if Self::at_operand_start(rest) {
                    CalcView::UnaryOp(pm)
                } else {
                    CalcView::BinaryOp(pm)
                },
            ).push(CalcView::UnaryOp(pm))
        } else {
            elems
        }
    }

    /// Takes a `++` or `--` at the end of the tokens apart into two signs.
    fn inc_dec_to_unarys(&mut self)
        ensures
            final(self).text == old(self).text,
            final(self).paren_stack == old(self).paren_stack,
            calc_views(final(self).elements@) == Self::taken_apart(calc_views(old(self).elements@)),
    {
        let ghost before = calc_views(self.elements@);
        if self.elements.len() == 0 {
            return ;
        }
        let pm: String = match &self.elements[self.elements.len() - 1] {
            CalcElement::UnaryOp(op) => {
                assert(before.last() == CalcView::UnaryOp(op@));
                if str_is(op.as_str(), "++") {
                    String::from_str("+")
                } else if str_is(op.as_str(), "--") {
                    String::from_str("-")
                } else {
                    return ;
                }
            },
            _ => {
                assert(before.last() == self.elements@[self.elements@.len() - 1]@);
                return ;
            },
        };
        proof {
            reveal_strlit("++");
            reveal_strlit("--");
            assert("++"@[0] == '+' && "--"@[0] == '-');
        }
        self.elements.pop();
        assert(calc_views(self.elements@) =~= before.drop_last());
        let unary = if self.elements.len() == 0 {
            true
        } else {
            match &self.elements[self.elements.len() - 1] {
                CalcElement::UnaryOp(_) => true,
                CalcElement::BinaryOp(_) => true,
                CalcElement::LeftParen => true,
                _ => false,
            }
        };
        proof {
            if self.elements@.len() > 0 {
                assert(before.drop_last().last() == self.elements@[self.elements@.len() - 1]@);
            }
        }
        if unary {
            self.elements.push(CalcElement::UnaryOp(pm.clone()));
        } else {
            self.elements.push(CalcElement::BinaryOp(pm.clone()));
        }
        self.elements.push(CalcElement::UnaryOp(pm));
        assert(calc_views(self.elements@) =~= Self::taken_apart(before));
    }

    fn eat_word(feeder: &mut Feeder, ans: &mut Self, core: &mut ShellCore) -> (ok: bool)
        requires
            old(feeder)@.wf(),
        ensures
            *final(core) == *old(core),
            final(feeder)@.follows(old(feeder)@),
            final(ans).grown(old(ans), final(feeder)@.consumed_since(old(feeder)@)),
            ok ==> final(feeder)@.pos > old(feeder)@.pos,
            !ok ==> final(feeder)@ == old(feeder)@ && final(ans).elements == old(ans).elements
                && final(ans).paren_stack == old(ans).paren_stack,
            ok == (operand_end(old(feeder)@.chars, old(feeder)@.cursor()) is Some),
            ok ==> final(feeder)@.cursor() == operand_end(
                old(feeder)@.chars,
                old(feeder)@.cursor(),
            )->0.c && final(ans).last() == Last::Operand && final(ans).paren_stack == old(
                ans,
            ).paren_stack && calc_views(final(ans).elements@) == calc_views(
                old(ans).elements@,
            ).push(CalcView::Word(operand_at(old(feeder)@.chars, old(feeder)@.cursor()))),
    {
        match Word::parse_operand(feeder, core) {
            Some(w) => {
                ans.text.append(w.text.as_str());
                let ghost view = w@;
                ans.elements.push(CalcElement::Word(w));
                assert(calc_views(ans.elements@) =~= calc_views(old(ans).elements@).push(
                    CalcView::Word(view),
                ));
                true
            },
            None => {
                assert(old(ans).text@ + feeder@.consumed_since(old(feeder)@) =~= old(ans).text@);
                false
            },
        }
    }

    fn eat_unary_operator(feeder: &mut Feeder, ans: &mut Self, core: &mut ShellCore) -> (ok: bool)
        requires
            old(feeder)@.wf(),
        ensures
            *final(core) == *old(core),
            final(feeder)@.follows(old(feeder)@),
            final(ans).grown(old(ans), final(feeder)@.consumed_since(old(feeder)@)),
            ok ==> final(feeder)@.pos > old(feeder)@.pos,
            !ok ==> final(feeder)@ == old(feeder)@ && final(ans).elements == old(ans).elements
                && final(ans).paren_stack == old(ans).paren_stack,
            ok == (old(ans).last() == Last::Other && ("+"@.is_prefix_of(old(feeder)@.remaining())
                || "-"@.is_prefix_of(old(feeder)@.remaining()))),
            ok ==> final(feeder)@.cursor() == old(feeder)@.cursor().after(1) && final(ans).last()
                == Last::Other && final(ans).paren_stack == old(ans).paren_stack && calc_views(
                final(ans).elements@,
            ) == Self::taken_apart(calc_views(old(ans).elements@)).push(
                CalcView::UnaryOp(old(feeder)@.remaining().take(1)),
            ),
    {
        assert(old(ans).text@ + feeder@.consumed_since(old(feeder)@) =~= old(ans).text@);
        assert(ans.elements@.len() > 0 ==> calc_views(ans.elements@).last()
            == ans.elements@.last()@);
        if ans.elements.len() > 0 {
            match &ans.elements[ans.elements.len() - 1] {
                CalcElement::Num(_) | CalcElement::Name(_, _) | CalcElement::Word(_) => {
                    return false;
                },
                _ => {},
            }
        }
        proof {
            reveal_strlit("+");
            reveal_strlit("-");
        }
        if !(feeder.starts_with("+") || feeder.starts_with("-")) {
            return false;
        }
        ans.inc_dec_to_unarys();
        let s = Self::take(feeder, ans, 1);
        let ghost list = calc_views(ans.elements@);
        let ghost text = s@;
        ans.elements.push(CalcElement::UnaryOp(s));
        assert(calc_views(ans.elements@) =~= list.push(CalcView::UnaryOp(text)));
        true
    }

    fn eat_paren(feeder: &mut Feeder, ans: &mut Self) -> (ok: bool)
        requires
            old(feeder)@.wf(),
        ensures
            final(feeder)@.follows(old(feeder)@),
            final(ans).grown(old(ans), final(feeder)@.consumed_since(old(feeder)@)),
            ok ==> final(feeder)@.pos > old(feeder)@.pos,
            !ok ==> final(feeder)@ == old(feeder)@ && final(ans).elements == old(ans).elements
                && final(ans).paren_stack == old(ans).paren_stack,
            ok == ("("@.is_prefix_of(old(feeder)@.remaining()) || (old(ans).paren_stack@.len() > 0
                && ")"@.is_prefix_of(old(feeder)@.remaining()))),
            ok ==> final(feeder)@.cursor() == old(feeder)@.cursor().after(1) && final(ans).last()
                == Last::Other,
            ok && "("@.is_prefix_of(old(feeder)@.remaining()) ==> final(ans).paren_stack@.len()
                == old(ans).paren_stack@.len() + 1 && calc_views(final(ans).elements@)
                == Self::taken_apart(calc_views(old(ans).elements@)).push(CalcView::LeftParen),
            ok && !"("@.is_prefix_of(old(feeder)@.remaining()) ==> final(ans).paren_stack@.len()
                == old(ans).paren_stack@.len() - 1 && calc_views(final(ans).elements@)
                == Self::taken_apart(calc_views(old(ans).elements@)).push(CalcView::RightParen),
    {
        proof {
            reveal_strlit("(");
            reveal_strlit(")");
        }
        if feeder.starts_with("(") {
            ans.inc_dec_to_unarys();
            ans.paren_stack.push('(');
            let ghost list = calc_views(ans.elements@);
            ans.elements.push(CalcElement::LeftParen);
            assert(calc_views(ans.elements@) =~= list.push(CalcView::LeftParen));
            Self::take(feeder, ans, 1);
            return true;
        }
        if feeder.starts_with(")") && ans.paren_stack.len() > 0 {
            ans.inc_dec_to_unarys();
            ans.paren_stack.pop();
            let ghost list = calc_views(ans.elements@);
            ans.elements.push(CalcElement::RightParen);
            assert(calc_views(ans.elements@) =~= list.push(CalcView::RightParen));
            Self::take(feeder, ans, 1);
            return true;
        }
        assert(old(ans).text@ + feeder@.consumed_since(old(feeder)@) =~= old(ans).text@);
        false
    }

    fn eat_binary_operator(feeder: &mut Feeder, ans: &mut Self, core: &mut ShellCore) -> (ok: bool)
        requires
            old(feeder)@.wf(),
        ensures
            *final(core) == *old(core),
            final(feeder)@.follows(old(feeder)@),
            final(ans).grown(old(ans), final(feeder)@.consumed_since(old(feeder)@)),
            ok ==> final(feeder)@.pos > old(feeder)@.pos,
            !ok ==> final(feeder)@ == old(feeder)@ && final(ans).elements == old(ans).elements
                && final(ans).paren_stack == old(ans).paren_stack,
            ok == (first_match(old(feeder)@.remaining(), binary_operators()) > 0),
            ok ==> final(feeder)@.cursor() == old(feeder)@.cursor().after(
                first_match(old(feeder)@.remaining(), binary_operators()) as int,
            ) && final(ans).last() == Last::Other && final(ans).paren_stack == old(
                ans,
            ).paren_stack && calc_views(final(ans).elements@) == Self::taken_apart(
                calc_views(old(ans).elements@),
            ).push(
                CalcView::BinaryOp(
                    old(feeder)@.remaining().take(
                        first_match(old(feeder)@.remaining(), binary_operators()) as int,
                    ),
                ),
            ),
    {
        let len = feeder.scanner_binary_operator(core);
        if len == 0 {
            assert(old(ans).text@ + feeder@.consumed_since(old(feeder)@) =~= old(ans).text@);
            return false;
        }
        ans.inc_dec_to_unarys();
        let s = Self::take(feeder, ans, len);
        let ghost list = calc_views(ans.elements@);
        let ghost text = s@;
        ans.elements.push(CalcElement::BinaryOp(s));
        assert(calc_views(ans.elements@) =~= list.push(CalcView::BinaryOp(text)));
        true
    }

    /// Takes the token with which the text begins.
    fn eat_token(feeder: &mut Feeder, ans: &mut Self, core: &mut ShellCore) -> (ok: bool)
        requires
            old(feeder)@.wf(),
        ensures
            *final(core) == *old(core),
            final(feeder)@.follows(old(feeder)@),
            final(ans).grown(old(ans), final(feeder)@.consumed_since(old(feeder)@)),
            ok ==> final(feeder)@.pos > old(feeder)@.pos,
            !ok ==> final(feeder)@ == old(feeder)@ && final(ans).elements == old(ans).elements
                && final(ans).paren_stack == old(ans).paren_stack,
            calc_token(
                old(feeder)@.chars,
                old(feeder)@.cursor(),
                old(ans).last(),
                old(ans).paren_stack@.len(),
            ) == if ok {
                Some((final(feeder)@.cursor(), final(ans).last(), final(ans).paren_stack@.len()))
            } else {
                None
            },
            ok ==> calc_views(final(ans).elements@) == calc_pushed(
                old(feeder)@.chars,
                old(feeder)@.cursor(),
                calc_views(old(ans).elements@),
                old(ans).paren_stack@.len(),
            ),
    {
        proof {
            reveal_strlit("++");
            reveal_strlit("--");
            reveal_strlit("+");
            reveal_strlit("-");
            reveal_strlit("(");
            reveal_strlit(")");
        }
        if Self::eat_name(feeder, ans, core) {
            return true;
        }
        if Self::eat_incdec(feeder, ans) {
            return true;
        }
        if Self::eat_unary_operator(feeder, ans, core) {
            return true;
        }
        if Self::eat_paren(feeder, ans) {
            return true;
        }
        if Self::eat_binary_operator(feeder, ans, core) {
            return true;
        }
        if Self::eat_integer(feeder, ans, core) {
            return true;
        }
        Self::eat_word(feeder, ans, core)
    }

    /// Reads an expression up to the `))` that ends it, which stays in the
    /// text: tokens are taken as long as there are any, and then the `))` has
    /// to follow. `None` where something else ends the expression.
    pub fn parse(feeder: &mut Feeder, core: &mut ShellCore) -> (r: Option<Calc>)
        requires
            old(feeder)@.wf(),
        ensures
            *final(core) == *old(core),
            match r {
                Some(c) => final(feeder)@.took(old(feeder)@, c.text@) && "))"@.is_prefix_of(
                    final(feeder)@.remaining(),
                ),
                None => final(feeder)@ == old(feeder)@,
            },
            calc_rest(old(feeder)@.chars, old(feeder)@.cursor(), Last::Other, 0) == ended(
                r is Some,
                final(feeder)@,
            ),
            r matches Some(c) ==> calc_views(c.elements@) == calc_tokens(
                old(feeder)@.chars,
                old(feeder)@.cursor(),
                Seq::empty(),
                0,
            ),
    {
        let pos = feeder.pos;
        let limit = feeder.limit;
        let mut ans = Calc::new();
        let ghost start = feeder@;
        assert(feeder@.consumed_since(start) =~= ans.text@);
        assert(calc_views(ans.elements@) =~= Seq::<CalcView>::empty());
        loop
            invariant
                calc_rest(start.chars, feeder@.cursor(), ans.last(), ans.paren_stack@.len())
                    == calc_rest(start.chars, start.cursor(), Last::Other, 0),
                calc_tokens(
                    start.chars,
                    feeder@.cursor(),
                    calc_views(ans.elements@),
                    ans.paren_stack@.len(),
                ) == calc_tokens(start.chars, start.cursor(), Seq::empty(), 0),
                start == old(feeder)@,
                start.wf(),
                pos == start.pos,
                limit == start.limit,
                feeder@.follows(start),
                ans.text@ == feeder@.consumed_since(start),
                *core == *old(core),
            decreases feeder@.left(), feeder@.unfed(),
        {
            let ghost top = feeder@;
            proof {
                reveal(calc_tokens);
            }
            Self::eat_blank(feeder, &mut ans, core);
            let ghost before = feeder@;
            proof {
                lemma_took_twice(start, top, before);
                assert(ans.text@ =~= before.consumed_since(start));
            }
            let ate = Self::eat_token(feeder, &mut ans, core);
            proof {
                lemma_took_twice(start, before, feeder@);
                assert(ans.text@ =~= feeder@.consumed_since(start));
            }
            if ate {
                continue ;
            }
            proof {
                reveal_strlit("))");
            }
            if feeder.starts_with("))") {
                return Some(ans);
            }
            if feeder.len() != 0 || !feeder.feed_additional_line(core) {
                feeder.reset(pos, limit);
                return None;
            }
            assert(feeder@.consumed_since(start) =~= before.consumed_since(start));
        }
    }
}

} // verus!
