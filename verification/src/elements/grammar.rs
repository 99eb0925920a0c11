//! The grammar, as functions of the input and a place in it. For each kind of
//! element one function tells how far the element reaches, and a second one
//! tells what the element holds; those for words, subwords and arithmetic
//! expressions stand here, those for commands, pipelines, jobs and scripts
//! beside their parsers. A parser succeeds exactly where the first function
//! gives a place, stops at that place, and returns what the second function
//! describes.

use vstd::prelude::*;
use crate::elements::command::simple::reserved;
use crate::elements::expr::arithmetic::integer::integer_value;
use crate::elements::expr::arithmetic::parser::is_float_literal;
use crate::elements::expr::arithmetic::ExprView;
use crate::elements::expr::arithmetic::elem::ElemView;
use crate::elements::expr::arithmetic::parser::operand_last;
use crate::elements::subword::SubwordView;
use crate::elements::word::WordView;
use crate::elements::word::dollar_last;
use crate::elements::script::at_end_word;
use crate::feeder::FeederView;
use crate::feeder::keyword_at;
use crate::feeder::line_end;
use crate::feeder::scanner::CharClass;
use crate::feeder::scanner::and_or_symbols;
use crate::feeder::scanner::binary_operators;
use crate::feeder::scanner::comment_length;
use crate::feeder::scanner::escaped_length;
use crate::feeder::scanner::first_match;
use crate::feeder::scanner::job_ends;
use crate::feeder::scanner::keyword_match;
use crate::feeder::scanner::name_length;
use crate::feeder::scanner::redirect_symbols;
use crate::feeder::scanner::run_length;
use crate::feeder::scanner::single_quoted_length;
use crate::feeder::scanner::token_length;
use crate::feeder::scanner::test_binary_operators;
use crate::feeder::scanner::test_unary_operators;
use crate::feeder::scanner::unary_operators;

verus! {

/// Where a parser stands: its position in the input, and the end of the
/// lines that it has been handed.
pub struct Cursor {
    pub pos: int,
    pub limit: int,
}

impl FeederView {
    /// Where the parser stands.
    pub open spec fn cursor(self) -> Cursor {
        Cursor { pos: self.pos, limit: self.limit }
    }
}

/// What the grammar says of a parser that ended at `after`: the place where
/// it ended where it found something, and nothing where it did not.
pub open spec fn ended(found: bool, after: FeederView) -> Option<Cursor> {
    if found {
        Some(after.cursor())
    } else {
        None
    }
}

impl Cursor {
    /// Whether the cursor lies inside the input.
    pub open spec fn within(self, chars: Seq<char>) -> bool {
        0 <= self.pos <= self.limit <= chars.len()
    }

    /// What the parser sees.
    pub open spec fn sees(self, chars: Seq<char>) -> Seq<char> {
        chars.subrange(self.pos, self.limit)
    }

    /// The cursor after `n` characters were consumed.
    pub open spec fn after(self, n: int) -> Cursor {
        Cursor { pos: self.pos + n, limit: self.limit }
    }

    /// Whether `other` lies behind this cursor: more was consumed, or as much
    /// was consumed and more lines were handed over.
    pub open spec fn before(self, other: Cursor) -> bool {
        self.pos < other.pos || (self.pos == other.pos && self.limit < other.limit)
    }

    /// Whether `other` lies behind this cursor and inside the input.
    pub open spec fn reaches(self, other: Cursor, chars: Seq<char>) -> bool {
        other.within(chars) && self.before(other)
    }

    /// Whether `other` is this cursor or lies behind it, inside the input.
    pub open spec fn leads(self, other: Cursor, chars: Seq<char>) -> bool {
        other.within(chars) && (self == other || self.before(other))
    }
}

/// The cursor after one more line was handed over; `None` at the end of the
/// input.
pub open spec fn fed(chars: Seq<char>, c: Cursor) -> Option<Cursor> {
    if c.within(chars) && c.limit < line_end(chars, c.limit) <= chars.len() {
        Some(Cursor { pos: c.pos, limit: line_end(chars, c.limit) })
    } else {
        None
    }
}

/// The cursor after `n` characters were consumed; `None` where `n` is 0 or
/// more than the parser sees.
pub open spec fn step(chars: Seq<char>, c: Cursor, n: nat) -> Option<Cursor> {
    if c.within(chars) && 0 < n <= c.sees(chars).len() {
        Some(c.after(n as int))
    } else {
        None
    }
}

/// The cursor behind `word`, where the parser sees it first.
pub open spec fn behind(chars: Seq<char>, c: Cursor, word: Seq<char>) -> Option<Cursor> {
    if word.is_prefix_of(c.sees(chars)) {
        step(chars, c, word.len())
    } else {
        None
    }
}

/// The cursor behind `word`, where the parser sees it first and as a word of
/// its own.
pub open spec fn behind_keyword(chars: Seq<char>, c: Cursor, word: Seq<char>) -> Option<Cursor> {
    if keyword_at(c.sees(chars), word) {
        step(chars, c, word.len())
    } else {
        None
    }
}

/// The cursor behind the characters of `class` at `c`.
pub open spec fn skip_run(chars: Seq<char>, c: Cursor, class: CharClass) -> Cursor {
    let n = run_length(c.sees(chars), 0, class);
    if c.within(chars) && n <= c.sees(chars).len() {
        c.after(n as int)
    } else {
        c
    }
}

/// The cursor behind a comment at `c`.
pub open spec fn skip_comment(chars: Seq<char>, c: Cursor) -> Cursor {
    let n = comment_length(c.sees(chars));
    if c.within(chars) && n <= c.sees(chars).len() {
        c.after(n as int)
    } else {
        c
    }
}

/// The cursor behind the blanks at `c`.
pub open spec fn skip_blank(chars: Seq<char>, c: Cursor) -> Cursor {
    skip_run(chars, c, CharClass::Blank)
}

/// The cursor behind the blanks and a comment at `c`.
pub open spec fn skip_blank_comment(chars: Seq<char>, c: Cursor) -> Cursor {
    skip_comment(chars, skip_blank(chars, c))
}

/// `r`, where it lies behind `c` and inside the input.
pub open spec fn onward(chars: Seq<char>, c: Cursor, r: Option<Cursor>) -> Option<Cursor> {
    match r {
        Some(next) => if c.reaches(next, chars) {
            r
        } else {
            None
        },
        None => None,
    }
}

/// `r`, where it is `c` or lies behind it, inside the input.
pub open spec fn along(chars: Seq<char>, c: Cursor, r: Option<Cursor>) -> Option<Cursor> {
    match r {
        Some(next) => if c.leads(next, chars) {
            r
        } else {
            None
        },
        None => None,
    }
}

/// The cursor behind all blanks, newlines and comments at `c`, as far as
/// they were handed over.
pub open spec fn skip_space(chars: Seq<char>, c: Cursor) -> Cursor
    decreases chars.len() - c.pos,
{
    let next = skip_comment(chars, skip_run(chars, c, CharClass::Space));
    if c.within(chars) && c.reaches(next, chars) {
        skip_space(chars, next)
    } else {
        c
    }
}

/// The cursor behind blanks and newlines where a command may go on on a
/// later line: lines are handed over until something follows or the input
/// ends.
pub open spec fn skip_to_next(chars: Seq<char>, c: Cursor) -> Cursor
    decreases chars.len() - c.pos, chars.len() - c.limit,
{
    let b = skip_run(chars, c, CharClass::Space);
    if !c.within(chars) || b.sees(chars).len() > 0 {
        b
    } else {
        match fed(chars, b) {
            Some(f) => skip_to_next(chars, f),
            None => b,
        }
    }
}

/// How an operand of arithmetic ends: where, with how many subwords, and
/// whether the first of them is unquoted.
pub struct OperandEnd {
    pub c: Cursor,
    pub count: nat,
    pub plain: bool,
}

/// How a script ends: where, and with how many jobs.
pub struct ScriptEnd {
    pub c: Cursor,
    pub jobs: nat,
}

/// Where the subword at `c` ends; `None` where none begins there. The kinds
/// are tried in this order: single-quoted, double-quoted, arithmetic
/// substitution, command substitution, parameter in braces, unquoted.
#[verifier::opaque]
pub open spec fn subword_end(chars: Seq<char>, c: Cursor) -> Option<Cursor>
    decreases chars.len() - c.pos, chars.len() - c.limit, 2nat, 0nat,
{
    if !c.within(chars) {
        None
    } else if single_quoted_length(c.sees(chars)) > 0 {
        step(chars, c, single_quoted_length(c.sees(chars)))
    } else if double_quoted_end(chars, c) is Some {
        double_quoted_end(chars, c)
    } else if arithmetic_end(chars, c) is Some {
        arithmetic_end(chars, c)
    } else if substitution_end(chars, c) is Some {
        substitution_end(chars, c)
    } else if braced_end(chars, c) is Some {
        braced_end(chars, c)
    } else {
        step(chars, c, token_length(c.sees(chars)))
    }
}

/// Where the double-quoted subword at `c` ends.
#[verifier::opaque]
pub open spec fn double_quoted_end(chars: Seq<char>, c: Cursor) -> Option<Cursor>
    decreases chars.len() - c.pos, chars.len() - c.limit, 1nat, 0nat,
{
    match behind(chars, c, "\""@) {
        Some(n) => quoted_rest(chars, n),
        None => None,
    }
}

/// Where the next piece of a double-quoted subword ends: a substitution, a
/// parameter in braces, an escaped character, a run of characters that stand
/// for themselves, or one character that is none of these.
#[verifier::opaque]
pub open spec fn quoted_piece(chars: Seq<char>, c: Cursor) -> Option<Cursor>
    decreases chars.len() - c.pos, chars.len() - c.limit, 2nat, 0nat,
{
    if !c.within(chars) {
        None
    } else if arithmetic_end(chars, c) is Some {
        arithmetic_end(chars, c)
    } else if substitution_end(chars, c) is Some {
        substitution_end(chars, c)
    } else if braced_end(chars, c) is Some {
        braced_end(chars, c)
    } else if escaped_length(c.sees(chars)) > 0 {
        step(chars, c, escaped_length(c.sees(chars)))
    } else if run_length(c.sees(chars), 0, CharClass::InDoubleQuotes) > 0 {
        step(chars, c, run_length(c.sees(chars), 0, CharClass::InDoubleQuotes))
    } else {
        step(chars, c, 1)
    }
}

/// Where a double-quoted subword ends whose inside goes on at `c`: behind
/// the closing quote. At the end of the lines handed over one more line is
/// taken; `None` where the input ends before the quote.
#[verifier::opaque]
pub open spec fn quoted_rest(chars: Seq<char>, c: Cursor) -> Option<Cursor>
    decreases chars.len() - c.pos, chars.len() - c.limit, 3nat, 0nat,
{
    if !c.within(chars) {
        None
    } else if behind(chars, c, "\""@) is Some {
        behind(chars, c, "\""@)
    } else if c.sees(chars).len() == 0 {
        match fed(chars, c) {
            Some(f) => quoted_rest(chars, f),
            None => None,
        }
    } else {
        match onward(chars, c, quoted_piece(chars, c)) {
            Some(next) => quoted_rest(chars, next),
            None => None,
        }
    }
}

/// Where the parameter in braces at `c` ends.
#[verifier::opaque]
pub open spec fn braced_end(chars: Seq<char>, c: Cursor) -> Option<Cursor>
    decreases chars.len() - c.pos, chars.len() - c.limit, 1nat, 0nat,
{
    match behind(chars, c, "${"@) {
        Some(n) => braced_rest(chars, n),
        None => None,
    }
}

/// Where a parameter in braces ends whose inside goes on at `c`: behind the
/// closing brace that stands where a subword begins.
#[verifier::opaque]
pub open spec fn braced_rest(chars: Seq<char>, c: Cursor) -> Option<Cursor>
    decreases chars.len() - c.pos, chars.len() - c.limit, 3nat, 0nat,
{
    if behind(chars, c, "}"@) is Some {
        behind(chars, c, "}"@)
    } else {
        match onward(chars, c, subword_end(chars, c)) {
            Some(next) => braced_rest(chars, next),
            None => None,
        }
    }
}

/// Where the arithmetic substitution at `c` ends.
#[verifier::opaque]
pub open spec fn arithmetic_end(chars: Seq<char>, c: Cursor) -> Option<Cursor>
    decreases chars.len() - c.pos, chars.len() - c.limit, 1nat, 0nat,
{
    match behind(chars, c, "$(("@) {
        Some(n) => behind(chars, expr_end(chars, n, false, 0), "))"@),
        None => None,
    }
}

/// Where the command substitution at `c` ends.
#[verifier::opaque]
pub open spec fn substitution_end(chars: Seq<char>, c: Cursor) -> Option<Cursor>
    decreases chars.len() - c.pos, chars.len() - c.limit, 1nat, 0nat,
{
    if "$("@.is_prefix_of(c.sees(chars)) {
        match step(chars, c, 1) {
            Some(n) => paren_end(chars, n),
            None => None,
        }
    } else {
        None
    }
}

/// Where the word at `c` ends; `None` where none begins there.
#[verifier::opaque]
pub open spec fn word_end(chars: Seq<char>, c: Cursor) -> Option<Cursor>
    decreases chars.len() - c.pos, chars.len() - c.limit, 3nat, 1nat,
{
    if "#"@.is_prefix_of(c.sees(chars)) {
        None
    } else {
        match onward(chars, c, subword_end(chars, c)) {
            Some(next) => Some(word_rest(chars, next)),
            None => None,
        }
    }
}

/// Where a word ends that goes on at `c`: behind its last subword.
#[verifier::opaque]
pub open spec fn word_rest(chars: Seq<char>, c: Cursor) -> Cursor
    decreases chars.len() - c.pos, chars.len() - c.limit, 3nat, 0nat,
{
    match onward(chars, c, subword_end(chars, c)) {
        Some(next) => word_rest(chars, next),
        None => c,
    }
}

/// Where the next subword of an operand of arithmetic ends, and whether it
/// is unquoted. `dollar` tells whether the subword before it is a `$`, behind
/// which any one character is taken.
#[verifier::opaque]
pub open spec fn operand_piece(chars: Seq<char>, c: Cursor, dollar: bool) -> Option<(Cursor, bool)>
    decreases chars.len() - c.pos, chars.len() - c.limit, 2nat, 0nat,
{
    if !c.within(chars) {
        None
    } else if single_quoted_length(c.sees(chars)) > 0 {
        match step(chars, c, single_quoted_length(c.sees(chars))) {
            Some(n) => Some((n, false)),
            None => None,
        }
    } else if arithmetic_end(chars, c) is Some {
        Some((arithmetic_end(chars, c)->0, false))
    } else if substitution_end(chars, c) is Some {
        Some((substitution_end(chars, c)->0, false))
    } else if braced_end(chars, c) is Some {
        Some((braced_end(chars, c)->0, false))
    } else if "$"@.is_prefix_of(c.sees(chars)) {
        match step(chars, c, 1) {
            Some(n) => Some((n, true)),
            None => None,
        }
    } else if run_length(c.sees(chars), 0, CharClass::InOperand) > 0 {
        match step(chars, c, run_length(c.sees(chars), 0, CharClass::InOperand)) {
            Some(n) => Some((n, true)),
            None => None,
        }
    } else if dollar {
        match step(chars, c, 1) {
            Some(n) => Some((n, true)),
            None => None,
        }
    } else {
        None
    }
}

/// How an operand of arithmetic ends that goes on at `c`, where it has
/// `count` subwords so far, `dollar` tells whether the last of them is a `$`,
/// and `plain` whether the first is unquoted.
#[verifier::opaque]
pub open spec fn operand_rest(
    chars: Seq<char>,
    c: Cursor,
    count: nat,
    dollar: bool,
    plain: bool,
) -> OperandEnd
    decreases chars.len() - c.pos, chars.len() - c.limit, 3nat, 0nat,
{
    match operand_piece(chars, c, dollar) {
        Some((next, unquoted)) => if c.reaches(next, chars) {
            operand_rest(
                chars,
                next,
                count + 1,
                unquoted && "$"@.is_prefix_of(c.sees(chars)),
                if count == 0 {
                    unquoted
                } else {
                    plain
                },
            )
        } else {
            OperandEnd { c, count, plain }
        },
        None => OperandEnd { c, count, plain },
    }
}

/// How the operand of arithmetic at `c` ends; `None` where none begins
/// there.
#[verifier::opaque]
pub open spec fn operand_end(chars: Seq<char>, c: Cursor) -> Option<OperandEnd>
    decreases chars.len() - c.pos, chars.len() - c.limit, 3nat, 1nat,
{
    let e = operand_rest(chars, c, 0, false, false);
    if e.count == 0 {
        None
    } else {
        Some(e)
    }
}

/// The cursor behind `++` or `--` at `c`; `c` where neither stands there.
pub open spec fn skip_suffix(chars: Seq<char>, c: Cursor) -> Cursor {
    if behind(chars, c, "++"@) is Some {
        behind(chars, c, "++"@)->0
    } else if behind(chars, c, "--"@) is Some {
        behind(chars, c, "--"@)->0
    } else {
        c
    }
}

/// Where the operand at `c` ends as a token of an expression. A number
/// stands alone; behind anything else blanks and `++` or `--` belong to the
/// token.
#[verifier::opaque]
pub open spec fn operand_token(chars: Seq<char>, c: Cursor) -> Option<Cursor>
    decreases chars.len() - c.pos, chars.len() - c.limit, 4nat, 0nat,
{
    match operand_end(chars, c) {
        Some(e) => {
            let text = chars.subrange(c.pos, e.c.pos);
            if !c.reaches(e.c, chars) {
                None
            } else if e.count == 1 && e.plain && (integer_value(text) is Some || is_float_literal(
                text,
            )) {
                Some(e.c)
            } else {
                Some(skip_suffix(chars, skip_run(chars, e.c, CharClass::Space)))
            }
        },
        None => None,
    }
}

/// Where the conditional operator at `c` ends, a `?`: behind the expression
/// that follows it, and behind a colon and one more expression where the
/// colon stands there.
#[verifier::opaque]
pub open spec fn ternary_end(chars: Seq<char>, c: Cursor) -> Option<Cursor>
    decreases chars.len() - c.pos, chars.len() - c.limit, 4nat, 0nat,
{
    match behind(chars, c, "?"@) {
        Some(n) => {
            let left = expr_end(chars, n, false, 0);
            if !n.leads(left, chars) {
                None
            } else {
                match behind(chars, left, ":"@) {
                    Some(m) => Some(expr_end(chars, m, false, 0)),
                    None => Some(left),
                }
            }
        },
        None => None,
    }
}

/// Where the token of an arithmetic expression at `c` ends, whether it is
/// an operand or a closing parenthesis, and how many parentheses are open
/// behind it; `operand` and `depth` say the same of what stands before it.
/// The kinds are tried in this order: conditional operator, `++` and `--`,
/// a sign where no operand stands before, parentheses, binary operators,
/// operands. A closing parenthesis that closes nothing is no token.
#[verifier::opaque]
pub open spec fn expr_token(chars: Seq<char>, c: Cursor, operand: bool, depth: nat) -> Option<
    (Cursor, bool, nat),
>
    decreases chars.len() - c.pos, chars.len() - c.limit, 4nat, 1nat,
{
    let s = c.sees(chars);
    if ternary_end(chars, c) is Some {
        Some((ternary_end(chars, c)->0, false, depth))
    } else if behind(chars, c, "++"@) is Some {
        Some((behind(chars, c, "++"@)->0, false, depth))
    } else if behind(chars, c, "--"@) is Some {
        Some((behind(chars, c, "--"@)->0, false, depth))
    } else if !operand && step(chars, c, first_match(s, unary_operators())) is Some {
        Some((step(chars, c, first_match(s, unary_operators()))->0, false, depth))
    } else if behind(chars, c, "("@) is Some {
        Some((behind(chars, c, "("@)->0, false, depth + 1))
    } else if depth > 0 && behind(chars, c, ")"@) is Some {
        Some((behind(chars, c, ")"@)->0, true, (depth - 1) as nat))
    } else if step(chars, c, first_match(s, binary_operators())) is Some {
        Some((step(chars, c, first_match(s, binary_operators()))->0, false, depth))
    } else {
        match operand_token(chars, c) {
            Some(n) => Some((n, true, depth)),
            None => None,
        }
    }
}

/// Where an arithmetic expression ends that goes on at `c`, where `operand`
/// tells whether an operand or a closing parenthesis stands last, and `depth`
/// how many parentheses are open. Blanks and tokens are taken as long as
/// they follow; a colon and anything that is no token end the expression; at
/// the end of the lines handed over one more line is taken.
#[verifier::opaque]
pub open spec fn expr_end(chars: Seq<char>, c: Cursor, operand: bool, depth: nat) -> Cursor
    decreases chars.len() - c.pos, chars.len() - c.limit, 5nat, 0nat,
{
    let b = skip_run(chars, c, CharClass::Space);
    if !c.within(chars) || ":"@.is_prefix_of(b.sees(chars)) {
        b
    } else {
        match expr_token(chars, b, operand, depth) {
            Some((n, o, d)) => if b.reaches(n, chars) {
                expr_end(chars, n, o, d)
            } else {
                b
            },
            None => if b.sees(chars).len() != 0 {
                b
            } else {
                match fed(chars, b) {
                    Some(f) => expr_end(chars, f, operand, depth),
                    None => b,
                }
            },
        }
    }
}

/// The characters between two cursors.
pub open spec fn slice(chars: Seq<char>, from: Cursor, to: Option<Cursor>) -> Seq<char> {
    match to {
        Some(to) => if 0 <= from.pos <= to.pos <= chars.len() {
            chars.subrange(from.pos, to.pos)
        } else {
            Seq::empty()
        },
        None => Seq::empty(),
    }
}

/// The subword at `c`, where one begins there.
#[verifier::opaque]
pub open spec fn subword_at(chars: Seq<char>, c: Cursor) -> SubwordView
    decreases chars.len() - c.pos, chars.len() - c.limit, 2nat, 0nat,
{
    let text = slice(chars, c, subword_end(chars, c));
    if !c.within(chars) {
        SubwordView::Unquoted(text)
    } else if single_quoted_length(c.sees(chars)) > 0 {
        SubwordView::SingleQuoted(text)
    } else if double_quoted_end(chars, c) is Some {
        SubwordView::DoubleQuoted(text, double_quoted_inside(chars, c))
    } else if arithmetic_end(chars, c) is Some {
        SubwordView::Arithmetic(text, arithmetic_inside(chars, c))
    } else if substitution_end(chars, c) is Some {
        SubwordView::Command(text, None)
    } else if braced_end(chars, c) is Some {
        SubwordView::BracedParam(text, braced_inside(chars, c))
    } else {
        SubwordView::Unquoted(text)
    }
}

/// The subwords between the quotes of the double-quoted subword at `c`.
#[verifier::opaque]
pub open spec fn double_quoted_inside(chars: Seq<char>, c: Cursor) -> Seq<SubwordView>
    decreases chars.len() - c.pos, chars.len() - c.limit, 1nat, 0nat,
{
    match behind(chars, c, "\""@) {
        Some(n) => quoted_pieces(chars, n, Seq::empty()),
        None => Seq::empty(),
    }
}

/// The piece of a double-quoted subword at `c`.
#[verifier::opaque]
pub open spec fn quoted_piece_at(chars: Seq<char>, c: Cursor) -> SubwordView
    decreases chars.len() - c.pos, chars.len() - c.limit, 2nat, 0nat,
{
    let text = slice(chars, c, quoted_piece(chars, c));
    if !c.within(chars) {
        SubwordView::Unquoted(text)
    } else if arithmetic_end(chars, c) is Some {
        SubwordView::Arithmetic(text, arithmetic_inside(chars, c))
    } else if substitution_end(chars, c) is Some {
        SubwordView::Command(text, None)
    } else if braced_end(chars, c) is Some {
        SubwordView::BracedParam(text, braced_inside(chars, c))
    } else {
        SubwordView::Unquoted(text)
    }
}

/// The pieces of a double-quoted subword whose inside goes on at `c`, behind
/// the pieces `so_far`.
#[verifier::opaque]
pub open spec fn quoted_pieces(chars: Seq<char>, c: Cursor, so_far: Seq<SubwordView>) -> Seq<
    SubwordView,
>
    decreases chars.len() - c.pos, chars.len() - c.limit, 3nat, 0nat,
{
    if !c.within(chars) || behind(chars, c, "\""@) is Some {
        so_far
    } else if c.sees(chars).len() == 0 {
        match fed(chars, c) {
            Some(f) => quoted_pieces(chars, f, so_far),
            None => so_far,
        }
    } else {
        match onward(chars, c, quoted_piece(chars, c)) {
            Some(next) => quoted_pieces(chars, next, so_far.push(quoted_piece_at(chars, c))),
            None => so_far,
        }
    }
}

/// The subwords of the parameter in braces at `c`, the closing brace among
/// them.
#[verifier::opaque]
pub open spec fn braced_inside(chars: Seq<char>, c: Cursor) -> Seq<SubwordView>
    decreases chars.len() - c.pos, chars.len() - c.limit, 1nat, 0nat,
{
    match behind(chars, c, "${"@) {
        Some(n) => braced_pieces(chars, n, Seq::empty()),
        None => Seq::empty(),
    }
}

/// The subwords of a parameter in braces whose inside goes on at `c`, behind
/// the subwords `so_far`.
#[verifier::opaque]
pub open spec fn braced_pieces(chars: Seq<char>, c: Cursor, so_far: Seq<SubwordView>) -> Seq<
    SubwordView,
>
    decreases chars.len() - c.pos, chars.len() - c.limit, 3nat, 0nat,
{
    if behind(chars, c, "}"@) is Some {
        so_far.push(SubwordView::Unquoted("}"@))
    } else {
        match onward(chars, c, subword_end(chars, c)) {
            Some(next) => braced_pieces(chars, next, so_far.push(subword_at(chars, c))),
            None => so_far,
        }
    }
}

/// The expression of the arithmetic substitution at `c`.
#[verifier::opaque]
pub open spec fn arithmetic_inside(chars: Seq<char>, c: Cursor) -> ExprView
    decreases chars.len() - c.pos, chars.len() - c.limit, 1nat, 0nat,
{
    match behind(chars, c, "$(("@) {
        Some(n) => expr_at(chars, n),
        None => ExprView { text: Seq::empty(), elements: Seq::empty(), paren_stack: Seq::empty() },
    }
}

/// The subwords of a word that goes on at `c`, behind the subwords `so_far`.
#[verifier::opaque]
pub open spec fn word_pieces(chars: Seq<char>, c: Cursor, so_far: Seq<SubwordView>) -> Seq<
    SubwordView,
>
    decreases chars.len() - c.pos, chars.len() - c.limit, 3nat, 0nat,
{
    match onward(chars, c, subword_end(chars, c)) {
        Some(next) => word_pieces(chars, next, so_far.push(subword_at(chars, c))),
        None => so_far,
    }
}

/// The word at `c`, where one begins there.
pub open spec fn word_at(chars: Seq<char>, c: Cursor) -> WordView {
    WordView { text: slice(chars, c, word_end(chars, c)), subwords: word_pieces(chars, c, Seq::empty()) }
}

/// The subword of an operand of arithmetic at `c`.
#[verifier::opaque]
pub open spec fn operand_piece_at(chars: Seq<char>, c: Cursor, dollar: bool) -> SubwordView
    decreases chars.len() - c.pos, chars.len() - c.limit, 2nat, 1nat,
{
    let text = match operand_piece(chars, c, dollar) {
        Some((next, _)) => slice(chars, c, Some(next)),
        None => Seq::empty(),
    };
    if !c.within(chars) {
        SubwordView::Unquoted(text)
    } else if single_quoted_length(c.sees(chars)) > 0 {
        SubwordView::SingleQuoted(text)
    } else if arithmetic_end(chars, c) is Some {
        SubwordView::Arithmetic(text, arithmetic_inside(chars, c))
    } else if substitution_end(chars, c) is Some {
        SubwordView::Command(text, None)
    } else if braced_end(chars, c) is Some {
        SubwordView::BracedParam(text, braced_inside(chars, c))
    } else {
        SubwordView::Unquoted(text)
    }
}

/// The subwords of an operand of arithmetic that goes on at `c`, behind the
/// subwords `so_far`.
#[verifier::opaque]
pub open spec fn operand_pieces(chars: Seq<char>, c: Cursor, so_far: Seq<SubwordView>) -> Seq<
    SubwordView,
>
    decreases chars.len() - c.pos, chars.len() - c.limit, 3nat, 0nat,
{
    match operand_piece(chars, c, dollar_last(so_far)) {
        Some((next, _)) => if c.reaches(next, chars) {
            operand_pieces(
                chars,
                next,
                so_far.push(operand_piece_at(chars, c, dollar_last(so_far))),
            )
        } else {
            so_far
        },
        None => so_far,
    }
}

/// The operand of arithmetic at `c`, where one begins there.
#[verifier::opaque]
pub open spec fn operand_at(chars: Seq<char>, c: Cursor) -> WordView
    decreases chars.len() - c.pos, chars.len() - c.limit, 3nat, 2nat,
{
    WordView {
        text: match operand_end(chars, c) {
            Some(e) => slice(chars, c, Some(e.c)),
            None => Seq::empty(),
        },
        subwords: operand_pieces(chars, c, Seq::empty()),
    }
}

/// What `++` or `--` at `c` adds to the name before it: 1, -1, or 0 where
/// neither stands there.
pub open spec fn suffix_at(chars: Seq<char>, c: Cursor) -> i64 {
    if "++"@.is_prefix_of(c.sees(chars)) {
        1i64
    } else if "--"@.is_prefix_of(c.sees(chars)) {
        -1i64
    } else {
        0i64
    }
}

/// The token that the operand at `c` is: a number, a number with a
/// fraction, or a word with what `++` or `--` behind it adds.
#[verifier::opaque]
pub open spec fn operand_token_at(chars: Seq<char>, c: Cursor) -> ElemView
    decreases chars.len() - c.pos, chars.len() - c.limit, 4nat, 0nat,
{
    match operand_end(chars, c) {
        Some(e) => {
            let text = slice(chars, c, Some(e.c));
            if e.count == 1 && e.plain && integer_value(text) is Some {
                ElemView::Integer(integer_value(text)->0)
            } else if e.count == 1 && e.plain && is_float_literal(text) {
                ElemView::Float(text)
            } else {
                ElemView::Word(
                    operand_at(chars, c),
                    suffix_at(chars, skip_run(chars, e.c, CharClass::Space)),
                )
            }
        },
        None => ElemView::LeftParen,
    }
}

/// The token that the conditional operator at `c` is, with the expressions
/// behind the `?` and behind the colon.
#[verifier::opaque]
pub open spec fn ternary_at(chars: Seq<char>, c: Cursor) -> ElemView
    decreases chars.len() - c.pos, chars.len() - c.limit, 4nat, 0nat,
{
    match behind(chars, c, "?"@) {
        Some(n) => {
            let left = expr_end(chars, n, false, 0);
            if !n.leads(left, chars) {
                ElemView::Ternary(None, None)
            } else {
                match behind(chars, left, ":"@) {
                    Some(m) => ElemView::Ternary(
                        Some(Box::new(expr_at(chars, n))),
                        Some(Box::new(expr_at(chars, m))),
                    ),
                    None => ElemView::Ternary(Some(Box::new(expr_at(chars, n))), None),
                }
            }
        },
        None => ElemView::Ternary(None, None),
    }
}

/// The token of an arithmetic expression at `c`, where `operand` and `depth`
/// say what stands before it.
#[verifier::opaque]
pub open spec fn expr_token_at(chars: Seq<char>, c: Cursor, operand: bool, depth: nat) -> ElemView
    decreases chars.len() - c.pos, chars.len() - c.limit, 4nat, 1nat,
{
    let s = c.sees(chars);
    if ternary_end(chars, c) is Some {
        ternary_at(chars, c)
    } else if behind(chars, c, "++"@) is Some {
        ElemView::Increment(1i64)
    } else if behind(chars, c, "--"@) is Some {
        ElemView::Increment(-1i64)
    } else if !operand && step(chars, c, first_match(s, unary_operators())) is Some {
        ElemView::UnaryOp(s.take(first_match(s, unary_operators()) as int))
    } else if behind(chars, c, "("@) is Some {
        ElemView::LeftParen
    } else if depth > 0 && behind(chars, c, ")"@) is Some {
        ElemView::RightParen
    } else if step(chars, c, first_match(s, binary_operators())) is Some {
        ElemView::BinaryOp(s.take(first_match(s, binary_operators()) as int))
    } else {
        operand_token_at(chars, c)
    }
}

/// The tokens of an arithmetic expression that goes on at `c`, behind the
/// tokens `so_far`, where `depth` parentheses are open.
#[verifier::opaque]
pub open spec fn expr_tokens(chars: Seq<char>, c: Cursor, so_far: Seq<ElemView>, depth: nat) -> (
    Seq<ElemView>,
    nat,
)
    decreases chars.len() - c.pos, chars.len() - c.limit, 5nat, 0nat,
{
    let b = skip_run(chars, c, CharClass::Space);
    if !c.within(chars) || ":"@.is_prefix_of(b.sees(chars)) {
        (so_far, depth)
    } else {
        match expr_token(chars, b, operand_last(so_far), depth) {
            Some((n, o, d)) => if b.reaches(n, chars) {
                expr_tokens(
                    chars,
                    n,
                    so_far.push(expr_token_at(chars, b, operand_last(so_far), depth)),
                    d,
                )
            } else {
                (so_far, depth)
            },
            None => if b.sees(chars).len() != 0 {
                (so_far, depth)
            } else {
                match fed(chars, b) {
                    Some(f) => expr_tokens(chars, f, so_far, depth),
                    None => (so_far, depth),
                }
            },
        }
    }
}

/// As many `(` as parentheses are open.
pub open spec fn open_parens(depth: nat) -> Seq<char> {
    Seq::new(depth, |i: int| '(')
}

/// The arithmetic expression at `c`: its text, its tokens, and one `(` for
/// each parenthesis that is open at its end.
pub open spec fn expr_at(chars: Seq<char>, c: Cursor) -> ExprView
    decreases chars.len() - c.pos, chars.len() - c.limit, 5nat, 1nat,
{
    let (tokens, depth) = expr_tokens(chars, c, Seq::empty(), 0);
    ExprView {
        text: slice(chars, c, Some(expr_end(chars, c, false, 0))),
        elements: tokens,
        paren_stack: open_parens(depth),
    }
}

/// Where the redirection at `c` ends: behind digits or none, an operator,
/// blanks or none, and a word.
#[verifier::opaque]
pub open spec fn redirect_end(chars: Seq<char>, c: Cursor) -> Option<Cursor>
    decreases chars.len() - c.pos, chars.len() - c.limit, 4nat, 0nat,
{
    let a = skip_run(chars, c, CharClass::Digit);
    match step(chars, a, first_match(a.sees(chars), redirect_symbols())) {
        Some(o) => if c.within(chars) {
            word_end(chars, skip_blank(chars, o))
        } else {
            None
        },
        None => None,
    }
}

/// The cursor behind the redirections at `c`, each with the blanks before
/// it.
#[verifier::opaque]
pub open spec fn redirects_end(chars: Seq<char>, c: Cursor) -> Cursor
    decreases chars.len() - c.pos, chars.len() - c.limit, 5nat, 0nat,
{
    if !c.within(chars) {
        c
    } else {
        match onward(chars, c, redirect_end(chars, skip_blank(chars, c))) {
            Some(next) => redirects_end(chars, next),
            None => c,
        }
    }
}

/// Where a simple command ends that goes on at `c`, where it has `words`
/// words so far and `any` tells whether it has a word or a redirection.
/// `None` where the first word is a reserved word, and where there is no
/// word at all.
#[verifier::opaque]
pub open spec fn simple_rest(chars: Seq<char>, c: Cursor, words: nat, any: bool) -> Option<Cursor>
    decreases chars.len() - c.pos, chars.len() - c.limit, 6nat, 0nat,
{
    let stop = if words == 0 {
        None
    } else {
        Some(c)
    };
    let b = skip_blank(chars, c);
    if !c.within(chars) || (any && run_length(c.sees(chars), 0, CharClass::Blank) == 0) {
        stop
    } else if redirect_end(chars, b) is Some {
        match onward(chars, c, redirect_end(chars, b)) {
            Some(next) => simple_rest(chars, next, words, true),
            None => stop,
        }
    } else {
        match onward(chars, c, word_end(chars, b)) {
            Some(next) => if words == 0 && reserved(chars.subrange(b.pos, next.pos)) {
                None
            } else {
                simple_rest(chars, next, words + 1, true)
            },
            None => stop,
        }
    }
}

/// Where the simple command at `c` ends.
#[verifier::opaque]
pub open spec fn simple_end(chars: Seq<char>, c: Cursor) -> Option<Cursor>
    decreases chars.len() - c.pos, chars.len() - c.limit, 6nat, 1nat,
{
    simple_rest(chars, c, 0, false)
}

/// Where the command in parentheses at `c` ends.
#[verifier::opaque]
pub open spec fn paren_end(chars: Seq<char>, c: Cursor) -> Option<Cursor>
    decreases chars.len() - c.pos, chars.len() - c.limit, 6nat, 0nat,
{
    match behind(chars, c, "("@) {
        Some(n) => match body_end(chars, n, seq![")"@]) {
            Some(e) => match behind(chars, e, ")"@) {
                Some(x) => if c.reaches(x, chars) {
                    Some(redirects_end(chars, x))
                } else {
                    None
                },
                None => None,
            },
            None => None,
        },
        None => None,
    }
}

/// Where the arithmetic command at `c` ends.
#[verifier::opaque]
pub open spec fn arithmetic_command_end(chars: Seq<char>, c: Cursor) -> Option<Cursor>
    decreases chars.len() - c.pos, chars.len() - c.limit, 6nat, 0nat,
{
    match behind(chars, c, "(("@) {
        Some(n) => match behind(chars, expr_end(chars, n, false, 0), "))"@) {
            Some(x) => if c.reaches(x, chars) {
                Some(redirects_end(chars, x))
            } else {
                None
            },
            None => None,
        },
        None => None,
    }
}

/// The cursor behind the blanks and the `;`, `&` or newline that end a job
/// at `c`.
pub open spec fn skip_job_end(chars: Seq<char>, c: Cursor) -> Cursor {
    let b = skip_blank(chars, c);
    match step(chars, b, first_match(b.sees(chars), job_ends())) {
        Some(e) => e,
        None => b,
    }
}

/// How a script ends that goes on at `c` and has `jobs` jobs so far: at the
/// first of the words in `ends` that stands where a command could begin;
/// without such words, where no job follows. `None` where end words are
/// given and the input runs out, or something that is no job stands, before
/// one of them.
#[verifier::opaque]
pub open spec fn script_rest(chars: Seq<char>, c: Cursor, ends: Seq<Seq<char>>, jobs: nat) -> Option<
    ScriptEnd,
>
    decreases chars.len() - c.pos, chars.len() - c.limit, 10nat, 0nat,
{
    let a = skip_space(chars, c);
    let stop = if ends.len() == 0 {
        Some(ScriptEnd { c: a, jobs })
    } else {
        None
    };
    if !c.within(chars) || !c.leads(a, chars) {
        None
    } else if at_end_word(a.sees(chars), ends) {
        Some(ScriptEnd { c: a, jobs })
    } else if a.sees(chars).len() == 0 {
        match onward(chars, c, fed(chars, a)) {
            Some(f) => script_rest(chars, f, ends, jobs),
            None => stop,
        }
    } else {
        match onward(chars, a, job_end(chars, a)) {
            Some(j) => script_rest(chars, skip_job_end(chars, j), ends, jobs + 1),
            None => stop,
        }
    }
}

/// Where a script ends that begins at `c` and runs up to one of the words in
/// `ends`.
#[verifier::opaque]
pub open spec fn body_end(chars: Seq<char>, c: Cursor, ends: Seq<Seq<char>>) -> Option<Cursor>
    decreases chars.len() - c.pos, chars.len() - c.limit, 10nat, 1nat,
{
    match script_rest(chars, c, ends, 0) {
        Some(e) => along(chars, c, Some(e.c)),
        None => None,
    }
}

/// Where the job at `c` ends.
#[verifier::opaque]
pub open spec fn job_end(chars: Seq<char>, c: Cursor) -> Option<Cursor>
    decreases chars.len() - c.pos, chars.len() - c.limit, 9nat, 1nat,
{
    match onward(chars, c, pipeline_end(chars, c)) {
        Some(p) => job_rest(chars, p),
        None => None,
    }
}

/// Where a job ends that goes on at `c`, behind a pipeline: behind the last
/// pipeline that `&&` or `||` joins to it. `None` where no pipeline follows
/// such an operator.
#[verifier::opaque]
pub open spec fn job_rest(chars: Seq<char>, c: Cursor) -> Option<Cursor>
    decreases chars.len() - c.pos, chars.len() - c.limit, 9nat, 0nat,
{
    let b = skip_blank(chars, c);
    match step(chars, b, first_match(b.sees(chars), and_or_symbols())) {
        Some(o) => {
            let n = skip_to_next(chars, o);
            if !c.within(chars) || !o.leads(n, chars) {
                None
            } else {
                match onward(chars, n, pipeline_end(chars, n)) {
                    Some(p) => job_rest(chars, p),
                    None => None,
                }
            }
        },
        None => Some(c),
    }
}

/// How long the operator is that joins two commands of a pipeline at the
/// start of `s`: 2 for `|&`, 1 for `|`, 0 for `||` and anything else.
pub open spec fn pipe_length(s: Seq<char>) -> nat {
    if "||"@.is_prefix_of(s) {
        0
    } else if "|&"@.is_prefix_of(s) {
        2
    } else if "|"@.is_prefix_of(s) {
        1
    } else {
        0
    }
}

/// The cursor behind a `!` that stands as a word of its own at `c`, and the
/// blanks behind it; `c` where none stands there.
pub open spec fn skip_negation(chars: Seq<char>, c: Cursor) -> Cursor {
    match behind_keyword(chars, c, "!"@) {
        Some(x) => skip_blank(chars, x),
        None => c,
    }
}

/// Where the pipeline at `c` ends.
#[verifier::opaque]
pub open spec fn pipeline_end(chars: Seq<char>, c: Cursor) -> Option<Cursor>
    decreases chars.len() - c.pos, chars.len() - c.limit, 8nat, 1nat,
{
    let start = skip_negation(chars, c);
    if !c.within(chars) {
        None
    } else {
        match onward(chars, start, command_end(chars, start)) {
            Some(p) => pipeline_rest(chars, p),
            None => None,
        }
    }
}

/// Where a pipeline ends that goes on at `c`, behind a command.
#[verifier::opaque]
pub open spec fn pipeline_rest(chars: Seq<char>, c: Cursor) -> Option<Cursor>
    decreases chars.len() - c.pos, chars.len() - c.limit, 8nat, 0nat,
{
    let b = skip_blank(chars, c);
    match step(chars, b, pipe_length(b.sees(chars))) {
        Some(o) => {
            let n = skip_to_next(chars, o);
            if !c.within(chars) || !o.leads(n, chars) {
                None
            } else {
                match onward(chars, n, command_end(chars, n)) {
                    Some(p) => pipeline_rest(chars, p),
                    None => None,
                }
            }
        },
        None => Some(c),
    }
}

/// Where the command at `c` ends. The kinds are tried in this order: `if`,
/// `for`, `while` and `until`, arithmetic, test, parentheses, simple.
#[verifier::opaque]
pub open spec fn command_end(chars: Seq<char>, c: Cursor) -> Option<Cursor>
    decreases chars.len() - c.pos, chars.len() - c.limit, 7nat, 0nat,
{
    if if_end(chars, c) is Some {
        if_end(chars, c)
    } else if for_end(chars, c) is Some {
        for_end(chars, c)
    } else if while_end(chars, c) is Some {
        while_end(chars, c)
    } else if arithmetic_command_end(chars, c) is Some {
        arithmetic_command_end(chars, c)
    } else if test_end(chars, c) is Some {
        test_end(chars, c)
    } else if paren_end(chars, c) is Some {
        paren_end(chars, c)
    } else {
        simple_end(chars, c)
    }
}

/// Where the `if` command at `c` ends.
#[verifier::opaque]
pub open spec fn if_end(chars: Seq<char>, c: Cursor) -> Option<Cursor>
    decreases chars.len() - c.pos, chars.len() - c.limit, 6nat, 1nat,
{
    if_rest(chars, c, "if"@)
}

/// The cursor behind `fi` and the redirections that follow it.
#[verifier::opaque]
pub open spec fn fi_end(chars: Seq<char>, c: Cursor) -> Option<Cursor>
    decreases chars.len() - c.pos, chars.len() - c.limit, 5nat, 1nat,
{
    match behind_keyword(chars, c, "fi"@) {
        Some(x) => Some(redirects_end(chars, x)),
        None => None,
    }
}

/// Where an `if` command ends that goes on at `c` with `word`, which is `if`
/// or `elif`: behind a condition, `then` and a script, and then either
/// `else`, a script and `fi`, or `fi`, or one more `elif` with what belongs
/// to it.
#[verifier::opaque]
pub open spec fn if_rest(chars: Seq<char>, c: Cursor, word: Seq<char>) -> Option<Cursor>
    decreases chars.len() - c.pos, chars.len() - c.limit, 6nat, 0nat,
{
    match behind_keyword(chars, c, word) {
        Some(n) => match along(chars, n, body_end(chars, n, seq!["then"@])) {
            Some(t) => match behind_keyword(chars, t, "then"@) {
                Some(u) => match body_end(chars, u, seq!["fi"@, "else"@, "elif"@]) {
                    Some(b) => if !c.reaches(b, chars) {
                        None
                    } else if behind_keyword(chars, b, "else"@) is Some {
                        match body_end(chars, behind_keyword(chars, b, "else"@)->0, seq!["fi"@]) {
                            Some(e) => if c.reaches(e, chars) {
                                fi_end(chars, e)
                            } else {
                                None
                            },
                            None => None,
                        }
                    } else if behind_keyword(chars, b, "fi"@) is Some {
                        fi_end(chars, b)
                    } else if behind_keyword(chars, b, "elif"@) is Some {
                        if_rest(chars, b, "elif"@)
                    } else {
                        None
                    },
                    None => None,
                },
                None => None,
            },
            None => None,
        },
        None => None,
    }
}

/// Where a loop ends whose condition or head ends at `c`: behind `do`, a
/// script, `done`, and redirections.
#[verifier::opaque]
pub open spec fn do_end(chars: Seq<char>, c: Cursor) -> Option<Cursor>
    decreases chars.len() - c.pos, chars.len() - c.limit, 5nat, 3nat,
{
    match behind_keyword(chars, c, "do"@) {
        Some(y) => match body_end(chars, y, seq!["done"@]) {
            Some(z) => match behind_keyword(chars, z, "done"@) {
                Some(w) => if c.reaches(w, chars) {
                    Some(redirects_end(chars, w))
                } else {
                    None
                },
                None => None,
            },
            None => None,
        },
        None => None,
    }
}

/// Where the `while` or `until` command at `c` ends.
#[verifier::opaque]
pub open spec fn while_end(chars: Seq<char>, c: Cursor) -> Option<Cursor>
    decreases chars.len() - c.pos, chars.len() - c.limit, 6nat, 0nat,
{
    let n = if behind_keyword(chars, c, "until"@) is Some {
        behind_keyword(chars, c, "until"@)
    } else {
        behind_keyword(chars, c, "while"@)
    };
    match n {
        Some(n) => match body_end(chars, n, seq!["do"@]) {
            Some(d) => if c.reaches(d, chars) {
                do_end(chars, d)
            } else {
                None
            },
            None => None,
        },
        None => None,
    }
}

/// The cursor behind the words of a list that goes on at `c`, each with the
/// blanks and a comment before it, and behind the blanks and a comment that
/// follow the last.
#[verifier::opaque]
pub open spec fn list_rest(chars: Seq<char>, c: Cursor) -> Cursor
    decreases chars.len() - c.pos, chars.len() - c.limit, 5nat, 0nat,
{
    let b = skip_blank_comment(chars, c);
    if !c.within(chars) {
        c
    } else {
        match onward(chars, c, word_end(chars, b)) {
            Some(next) => list_rest(chars, next),
            None => b,
        }
    }
}

/// Where the three expressions of a `for` command end that go on at `c`,
/// where `count` of them were read: behind the `))` that follows the third.
#[verifier::opaque]
pub open spec fn triple_rest(chars: Seq<char>, c: Cursor, count: nat) -> Option<Cursor>
    decreases chars.len() - c.pos, chars.len() - c.limit, 5nat, 1nat,
{
    let b = skip_blank_comment(chars, c);
    if !c.within(chars) {
        None
    } else if b.sees(chars).len() == 0 {
        match fed(chars, b) {
            Some(f) => triple_rest(chars, f, count),
            None => None,
        }
    } else {
        let e = expr_end(chars, b, false, 0);
        let t = skip_blank_comment(chars, e);
        if !b.leads(e, chars) {
            None
        } else if behind(chars, t, ";"@) is Some {
            if count + 1 >= 3 {
                None
            } else {
                triple_rest(chars, behind(chars, t, ";"@)->0, count + 1)
            }
        } else if count + 1 == 3 {
            behind(chars, t, "))"@)
        } else {
            None
        }
    }
}

/// Where the head of the `for` command ends whose `for` ends at `c`: behind
/// the name and the list of words, or behind the three expressions.
#[verifier::opaque]
pub open spec fn for_head(chars: Seq<char>, c: Cursor) -> Option<Cursor>
    decreases chars.len() - c.pos, chars.len() - c.limit, 5nat, 2nat,
{
    let a = skip_blank_comment(chars, c);
    if !c.within(chars) {
        None
    } else {
        match step(chars, a, name_length(a.sees(chars))) {
            Some(x) => {
                let b = skip_blank_comment(chars, x);
                match behind_keyword(chars, b, "in"@) {
                    Some(y) => Some(list_rest(chars, y)),
                    None => Some(b),
                }
            },
            None => match behind(chars, a, "(("@) {
                Some(x) => triple_rest(chars, x, 0),
                None => None,
            },
        }
    }
}

/// The cursor behind the `;` or newline that ends the head of a `for`
/// command at `c`, and behind blanks, newlines and comments; one more line
/// is taken where nothing follows.
#[verifier::opaque]
pub open spec fn head_end(chars: Seq<char>, c: Cursor) -> Option<Cursor> {
    let b = skip_blank_comment(chars, c);
    let x = if behind(chars, b, ";"@) is Some {
        behind(chars, b, ";"@)
    } else {
        behind(chars, b, "\n"@)
    };
    match x {
        Some(x) => {
            let e = skip_space(chars, x);
            if !x.leads(e, chars) {
                None
            } else if e.sees(chars).len() == 0 {
                fed(chars, e)
            } else {
                Some(e)
            }
        },
        None => None,
    }
}

/// Where the `do` of the `for` command at `c` stands: behind `for`, the
/// head, and what ends the head.
#[verifier::opaque]
pub open spec fn for_front(chars: Seq<char>, c: Cursor) -> Option<Cursor>
    decreases chars.len() - c.pos, chars.len() - c.limit, 5nat, 4nat,
{
    match behind_keyword(chars, c, "for"@) {
        Some(n) => match for_head(chars, n) {
            Some(h) => if !n.leads(h, chars) {
                None
            } else {
                along(chars, h, head_end(chars, h))
            },
            None => None,
        },
        None => None,
    }
}

/// Where the `for` command at `c` ends.
#[verifier::opaque]
pub open spec fn for_end(chars: Seq<char>, c: Cursor) -> Option<Cursor>
    decreases chars.len() - c.pos, chars.len() - c.limit, 6nat, 0nat,
{
    match for_front(chars, c) {
        Some(d) => if c.reaches(d, chars) {
            do_end(chars, d)
        } else {
            None
        },
        None => None,
    }
}

/// Where the next token of a conditional expression ends that is no word:
/// `&&`, `||`, a parenthesis; before an operand `!` and the tests on one
/// operand; behind an operand the tests on two.
pub open spec fn test_operator(chars: Seq<char>, c: Cursor, operand: bool) -> Option<Cursor> {
    let s = c.sees(chars);
    if behind(chars, c, "&&"@) is Some {
        behind(chars, c, "&&"@)
    } else if behind(chars, c, "||"@) is Some {
        behind(chars, c, "||"@)
    } else if behind(chars, c, "("@) is Some {
        behind(chars, c, "("@)
    } else if behind(chars, c, ")"@) is Some {
        behind(chars, c, ")"@)
    } else if !operand {
        if behind_keyword(chars, c, "!"@) is Some {
            behind_keyword(chars, c, "!"@)
        } else {
            step(chars, c, keyword_match(s, test_unary_operators()))
        }
    } else if keyword_match(s, test_binary_operators()) > 0 {
        step(chars, c, keyword_match(s, test_binary_operators()))
    } else if "<"@.is_prefix_of(s) || ">"@.is_prefix_of(s) {
        step(chars, c, 1)
    } else {
        None
    }
}

/// Where a conditional expression ends that goes on at `c`, where it has
/// `count` tokens so far and `operand` tells whether the last is an
/// operand: at the `]]` that follows its tokens. `None` where the input runs
/// out before, where something stands that is no token, and where there is
/// no token at all.
#[verifier::opaque]
pub open spec fn cond_rest(chars: Seq<char>, c: Cursor, count: nat, operand: bool) -> Option<Cursor>
    decreases chars.len() - c.pos, chars.len() - c.limit, 5nat, 0nat,
{
    let b = skip_run(chars, c, CharClass::Space);
    if !c.within(chars) {
        None
    } else if keyword_at(b.sees(chars), "]]"@) {
        if count == 0 {
            None
        } else {
            Some(b)
        }
    } else if b.sees(chars).len() == 0 {
        match fed(chars, b) {
            Some(f) => cond_rest(chars, f, count, operand),
            None => None,
        }
    } else if test_operator(chars, b, operand) is Some {
        cond_rest(chars, test_operator(chars, b, operand)->0, count + 1, false)
    } else {
        match onward(chars, b, word_end(chars, b)) {
            Some(next) => cond_rest(chars, next, count + 1, true),
            None => None,
        }
    }
}

/// Where the test command at `c` ends.
#[verifier::opaque]
pub open spec fn test_end(chars: Seq<char>, c: Cursor) -> Option<Cursor>
    decreases chars.len() - c.pos, chars.len() - c.limit, 6nat, 0nat,
{
    match behind_keyword(chars, c, "[["@) {
        Some(n) => match cond_rest(chars, n, 0, false) {
            Some(e) => match behind_keyword(chars, e, "]]"@) {
                Some(x) => if c.reaches(x, chars) {
                    Some(redirects_end(chars, x))
                } else {
                    None
                },
                None => None,
            },
            None => None,
        },
        None => None,
    }
}

/// Where the script at `c` ends that runs as far as jobs follow; `None`
/// where it holds no job.
pub open spec fn script_end(chars: Seq<char>, c: Cursor) -> Option<Cursor> {
    match script_rest(chars, c, Seq::empty(), 0) {
        Some(e) => if e.jobs == 0 {
            None
        } else {
            Some(e.c)
        },
        None => None,
    }
}

} // verus!
