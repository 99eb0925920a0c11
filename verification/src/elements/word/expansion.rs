//! What the expansion of words computes, as functions on plain data:
//! substitution inside the subwords, quote removal, and the value of a word
//! where no splitting takes place.

use vstd::prelude::*;
use crate::elements::expr::arithmetic::ExprView;
use crate::elements::expr::arithmetic::calculator::calculate_value;
use crate::elements::expr::arithmetic::elem::ElemView;
use crate::elements::subword::SubwordView;
use crate::elements::word::WordView;
use crate::elements::word::concat_texts;
use crate::elements::word::parameter_expansion::expanded;
use crate::shell::CoreView;
use crate::text::decimal;

verus! {

/// The name between the braces of `${name}`.
pub open spec fn braced_name(text: Seq<char>) -> Seq<char> {
    if text.len() >= 3 {
        text.subrange(2, text.len() - 1)
    } else {
        Seq::empty()
    }
}

/// How much of what stands between the braces names the parameter: a name,
/// or the one character of a special parameter.
pub open spec fn head_length(body: Seq<char>) -> nat {
    if crate::feeder::scanner::name_length(body) > 0 {
        crate::feeder::scanner::name_length(body)
    } else {
        crate::elements::word::parameter_expansion::special_length(body)
    }
}

/// Whether the parameter `name` counts as missing for an operator: with a
/// colon where its value is empty, without one where nothing defines it.
pub open spec fn missing(name: Seq<char>, colon: bool, st: CoreView) -> bool {
    if colon {
        st.value_of(name).len() == 0
    } else {
        st.special(name) is None && st.stored(name) is None
    }
}

/// What a parameter in braces stands for, where `body` is what stands
/// between the braces, and the state of the shell after it. `#name` gives the
/// length of the value. Behind a name may stand `-word`, `=word`, `+word` or
/// `?word`, each with a colon before it or without: `-` gives the word where
/// the parameter is missing, `=` gives it and assigns it, `+` gives the word
/// where the parameter is not missing, and `?` fails where it is missing. The
/// word is taken as it is written. Anything else fails.
pub open spec fn braced_value(body: Seq<char>, st: CoreView) -> (Option<Seq<char>>, CoreView) {
    if body.len() > 1 && body[0] == '#' && head_length(body.skip(1)) == body.len() - 1 {
        (Some(decimal(st.value_of(body.skip(1)).len() as int)), st)
    } else {
        let n = head_length(body) as int;
        let name = body.take(n);
        let rest = body.skip(n);
        let value = st.value_of(name);
        if n == 0 || n > body.len() {
            (None, st)
        } else if rest.len() == 0 {
            (Some(value), st)
        } else {
            let colon = rest[0] == ':';
            let at: int = if colon {
                1
            } else {
                0
            };
            if rest.len() <= at {
                (None, st)
            } else {
                let word = rest.skip(at + 1);
                let gone = missing(name, colon, st);
                if rest[at] == '-' {
                    (
                        Some(
                            if gone {
                                word
                            } else {
                                value
                            },
                        ),
                        st,
                    )
                } else if rest[at] == '=' {
                    if gone {
                        (Some(word), st.assign(name, word))
                    } else {
                        (Some(value), st)
                    }
                } else if rest[at] == '+' {
                    (
                        Some(
                            if gone {
                                Seq::empty()
                            } else {
                                word
                            },
                        ),
                        st,
                    )
                } else if rest[at] == '?' {
                    if gone {
                        (None, st)
                    } else {
                        (Some(value), st)
                    }
                } else {
                    (None, st)
                }
            }
        }
    }
}

/// A subword after the substitutions inside it were carried out, and the
/// state of the shell after them; `None` where a substitution failed. A
/// parameter in braces gives way to its value, an arithmetic substitution to
/// the value of its expression, a command substitution to the output of its
/// command, which has to be there; between double quotes the same happens,
/// and parameter expansion after it.
pub open spec fn subword_substituted(sw: SubwordView, st: CoreView) -> (Option<SubwordView>, CoreView)
    decreases sw,
{
    match sw {
        SubwordView::BracedParam(text, _) => {
            let (value, after) = braced_value(braced_name(text), st);
            match value {
                Some(v) => (Some(SubwordView::Parameter(v)), after),
                None => (None, after),
            }
        },
        SubwordView::Arithmetic(_, expr) => {
            let (value, after) = expr_value(expr, st);
            match value {
                Ok(n) => (Some(SubwordView::Parameter(decimal(n as int))), after),
                Err(_) => (None, after),
            }
        },
        SubwordView::Command(_, output) => match output {
            Some(out) => (Some(SubwordView::Parameter(out)), st),
            None => (None, st),
        },
        SubwordView::DoubleQuoted(_, subs) => {
            let (inner, after) = subwords_substituted(subs, st);
            match inner {
                Some(done) => {
                    let e = expanded(done, after);
                    (
                        Some(SubwordView::DoubleQuoted(seq!['"'] + concat_texts(e) + seq!['"'], e)),
                        after,
                    )
                },
                None => (None, after),
            }
        },
        _ => (Some(sw), st),
    }
}

/// The subwords after the substitutions inside them, carried out from left
/// to right.
pub open spec fn subwords_substituted(subs: Seq<SubwordView>, st: CoreView) -> (
    Option<Seq<SubwordView>>,
    CoreView,
)
    decreases subs, 0nat,
{
    if subs.len() == 0 {
        (Some(Seq::empty()), st)
    } else {
        let (front, mid) = subwords_substituted(subs.drop_last(), st);
        match front {
            Some(done) => {
                let (last, after) = subword_substituted(subs.last(), mid);
                match last {
                    Some(sw) => (Some(done.push(sw)), after),
                    None => (None, after),
                }
            },
            None => (None, mid),
        }
    }
}

/// A subword without its quoting: a single-quoted text loses its quotes, an
/// escaped character its backslash, a double-quoted text its quotes and the
/// backslashes that protect `$`, `"`, a backslash or a backquote. What was
/// quoted stays marked as quoted: the escaped character counts as
/// single-quoted from here on.
pub open spec fn unquoted(sw: SubwordView) -> SubwordView {
    match sw {
        SubwordView::Unquoted(t) => if t.len() == 2 && t[0] == '\\' {
            SubwordView::SingleQuoted(t.skip(1))
        } else {
            sw
        },
        SubwordView::SingleQuoted(t) => if t.len() >= 2 {
            SubwordView::SingleQuoted(t.subrange(1, t.len() - 1))
        } else {
            sw
        },
        SubwordView::DoubleQuoted(_, subs) => {
            let inner = subs.map_values(|s: SubwordView| unquoted_inside(s));
            SubwordView::DoubleQuoted(concat_texts(inner), inner)
        },
        _ => sw,
    }
}

/// A subword between double quotes without its quoting.
pub open spec fn unquoted_inside(sw: SubwordView) -> SubwordView {
    match sw {
        SubwordView::Unquoted(t) => if t.len() == 2 && t[0] == '\\' && (t[1] == '$' || t[1] == '"'
            || t[1] == '\\' || t[1] == '`') {
            SubwordView::Unquoted(t.skip(1))
        } else {
            sw
        },
        _ => sw,
    }
}

/// All subwords without their quoting.
pub open spec fn unquoted_all(subs: Seq<SubwordView>) -> Seq<SubwordView> {
    subs.map_values(|s: SubwordView| unquoted(s))
}

/// The subwords of a word after substitution, parameter expansion and quote
/// removal, in this order.
pub open spec fn subwords_expanded(subs: Seq<SubwordView>, st: CoreView) -> (
    Option<Seq<SubwordView>>,
    CoreView,
)
    decreases subs, 1nat,
{
    let (inner, after) = subwords_substituted(subs, st);
    match inner {
        Some(done) => (Some(unquoted_all(expanded(done, after))), after),
        None => (None, after),
    }
}

/// The text that a word stands for where it is not split: its subwords
/// expanded and joined.
pub open spec fn word_value(w: WordView, st: CoreView) -> (Option<Seq<char>>, CoreView)
    decreases w,
{
    let (subs, after) = subwords_expanded(w.subwords, st);
    match subs {
        Some(done) => (Some(concat_texts(done)), after),
        None => (None, after),
    }
}

/// A token of an expression with its words replaced by what they stand for;
/// both sides of a conditional are treated alike.
pub open spec fn elem_resolved(e: ElemView, st: CoreView) -> (Option<ElemView>, CoreView)
    decreases e,
{
    match e {
        ElemView::Word(w, inc) => {
            let (value, after) = word_value(w, st);
            match value {
                Some(text) => (
                    Some(
                        ElemView::Word(
                            WordView { text, subwords: seq![SubwordView::Parameter(text)] },
                            inc,
                        ),
                    ),
                    after,
                ),
                None => (None, after),
            }
        },
        ElemView::Ternary(left, right) => {
            let (l, mid) = side_resolved(left, st);
            match l {
                Some(ls) => {
                    let (r, after) = side_resolved(right, mid);
                    match r {
                        Some(rs) => (Some(ElemView::Ternary(ls, rs)), after),
                        None => (None, after),
                    }
                },
                None => (None, mid),
            }
        },
        _ => (Some(e), st),
    }
}

/// One side of a conditional with its words replaced.
pub open spec fn side_resolved(side: Option<Box<ExprView>>, st: CoreView) -> (
    Option<Option<Box<ExprView>>>,
    CoreView,
)
    decreases side,
{
    match side {
        None => (Some(None), st),
        Some(expr) => {
            let (elems, after) = elems_resolved(expr.elements, st);
            match elems {
                Some(done) => (
                    Some(
                        Some(
                            Box::new(
                                ExprView {
                                    text: expr.text,
                                    elements: done,
                                    paren_stack: expr.paren_stack,
                                },
                            ),
                        ),
                    ),
                    after,
                ),
                None => (None, after),
            }
        },
    }
}

/// The tokens of an expression with their words replaced, from left to
/// right.
pub open spec fn elems_resolved(elems: Seq<ElemView>, st: CoreView) -> (
    Option<Seq<ElemView>>,
    CoreView,
)
    decreases elems,
{
    if elems.len() == 0 {
        (Some(Seq::empty()), st)
    } else {
        let (front, mid) = elems_resolved(elems.drop_last(), st);
        match front {
            Some(done) => {
                let (last, after) = elem_resolved(elems.last(), mid);
                match last {
                    Some(e) => (Some(done.push(e)), after),
                    None => (None, after),
                }
            },
            None => (None, mid),
        }
    }
}

/// The value of an expression: first every word in it is replaced by what it
/// stands for, then the tokens are evaluated.
pub open spec fn expr_value(expr: ExprView, st: CoreView) -> (Result<i64, Seq<char>>, CoreView)
    decreases expr,
{
    let (elems, mid) = elems_resolved(expr.elements, st);
    match elems {
        Some(done) => {
            let o = calculate_value(done, mid);
            (o.result, o.st)
        },
        None => (Err(expr.text + ": wrong substitution"@), mid),
    }
}

} // verus!
