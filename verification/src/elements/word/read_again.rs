//! Reading a word again: the text of a word that is made of single-quoted
//! subwords and of unquoted subwords other than `$` is read, alone, as the
//! same word.

use vstd::prelude::*;
use crate::elements::grammar::Cursor;
use crate::elements::grammar::arithmetic_end;
use crate::elements::grammar::braced_end;
use crate::elements::grammar::double_quoted_end;
use crate::elements::grammar::onward;
use crate::elements::grammar::slice;
use crate::elements::grammar::substitution_end;
use crate::elements::grammar::subword_at;
use crate::elements::grammar::subword_end;
use crate::elements::grammar::word_at;
use crate::elements::grammar::word_end;
use crate::elements::grammar::word_pieces;
use crate::elements::grammar::word_rest;
use crate::elements::subword::SubwordView;
use crate::feeder::scanner::CharClass;
use crate::feeder::scanner::escaped_length;
use crate::feeder::scanner::lemma_run_length;
use crate::feeder::scanner::lemma_run_shorter;
use crate::feeder::scanner::lemma_single_quoted_round_trip;
use crate::feeder::scanner::lemma_token_round_trip;
use crate::feeder::scanner::run_length;
use crate::feeder::scanner::single_quoted_length;
use crate::feeder::scanner::symbol_length;
use crate::feeder::scanner::token_length;

verus! {

/// The cursor on a text of which nothing is consumed and all is handed over.
pub open spec fn at_start(t: Seq<char>) -> Cursor {
    Cursor { pos: 0, limit: t.len() as int }
}

/// The cursor on a text of which all is consumed.
pub open spec fn at_end(t: Seq<char>) -> Cursor {
    Cursor { pos: t.len() as int, limit: t.len() as int }
}

/// Whether a subword is single-quoted, or unquoted and no `$`.
pub open spec fn plain(sw: SubwordView) -> bool {
    sw is SingleQuoted || (sw is Unquoted && sw.text() != "$"@)
}

/// Whether the subwords of a word that goes on at `c` are all plain.
pub open spec fn plain_from(chars: Seq<char>, c: Cursor) -> bool
    decreases chars.len() - c.pos, chars.len() - c.limit,
{
    match onward(chars, c, subword_end(chars, c)) {
        Some(next) => plain(subword_at(chars, c)) && plain_from(chars, next),
        None => true,
    }
}

/// An unquoted subword measured in a text is measured again in the text cut
/// at or behind its end.
proof fn lemma_token_of_prefix(s: Seq<char>, len: int)
    requires
        0 < token_length(s) <= len <= s.len(),
    ensures
        token_length(s.take(len)) == token_length(s),
{
    let n = token_length(s);
    let u = s.take(len);
    assert(u[0] == s[0]);
    if escaped_length(s) > 0 {
        assert(u.len() >= 2);
    } else if symbol_length(s) > 0 {
    } else {
        if len == n {
            lemma_token_round_trip(s);
        } else {
            lemma_run_shorter(s, u, 0, CharClass::InSubword, n as int);
        }
        if u.len() >= 2 {
            assert(u[1] == s[1]);
        }
    }
}

/// A single-quoted subword measured in a text is measured again in the text
/// cut at or behind its end.
proof fn lemma_single_quoted_of_prefix(s: Seq<char>, len: int)
    requires
        0 < single_quoted_length(s) <= len <= s.len(),
    ensures
        single_quoted_length(s.take(len)) == single_quoted_length(s),
{
    let body = run_length(s, 1, CharClass::InSingleQuotes) as int;
    let u = s.take(len);
    assert(u[0] == s[0]);
    lemma_run_length(s, 1, CharClass::InSingleQuotes);
    lemma_run_shorter(s, u, 1, CharClass::InSingleQuotes, 1 + body);
}

/// No subword begins where nothing is left to see.
pub proof fn lemma_no_subword_at_the_end(t: Seq<char>, c: Cursor)
    requires
        c.within(t),
        c.pos == c.limit,
    ensures
        subword_end(t, c) is None,
{
    reveal(subword_end);
    reveal(double_quoted_end);
    reveal(arithmetic_end);
    reveal(substitution_end);
    reveal(braced_end);
    reveal_strlit("\"");
    reveal_strlit("$((");
    reveal_strlit("$(");
    reveal_strlit("${");
    assert(c.sees(t).len() == 0);
}

/// A plain subword is a piece of what the parser sees.
proof fn lemma_plain_subword_step(chars: Seq<char>, c: Cursor)
    requires
        c.within(chars),
        subword_end(chars, c) is Some,
        plain(subword_at(chars, c)),
    ensures
        c.pos < subword_end(chars, c)->0.pos <= c.limit,
        subword_end(chars, c)->0.limit == c.limit,
{
    reveal(subword_end);
    reveal(subword_at);
    reveal(double_quoted_end);
    reveal(arithmetic_end);
    reveal(substitution_end);
    reveal(braced_end);
}

/// A plain subword at `c` is read in the same way in a text that holds the
/// same characters from `from` up to a place at or behind the end of the
/// subword, and nothing else.
pub proof fn lemma_subword_read_again(chars: Seq<char>, c: Cursor, from: int, to: int)
    requires
        c.within(chars),
        0 <= from <= c.pos,
        to <= c.limit,
        subword_end(chars, c) is Some,
        subword_end(chars, c)->0.pos <= to,
        plain(subword_at(chars, c)),
    ensures
        ({
            let t = chars.subrange(from, to);
            let c1 = Cursor { pos: c.pos - from, limit: to - from };
            let n = subword_end(chars, c)->0;
            &&& c.pos < n.pos
            &&& n.limit == c.limit
            &&& subword_end(t, c1) == Some(Cursor { pos: n.pos - from, limit: to - from })
            &&& subword_at(t, c1) == subword_at(chars, c)
        }),
{
    reveal(subword_end);
    reveal(subword_at);
    reveal(double_quoted_end);
    reveal(arithmetic_end);
    reveal(substitution_end);
    reveal(braced_end);
    reveal_strlit("\"");
    reveal_strlit("$((");
    reveal_strlit("$(");
    reveal_strlit("${");
    reveal_strlit("$");
    let s = c.sees(chars);
    let t = chars.subrange(from, to);
    let c1 = Cursor { pos: c.pos - from, limit: to - from };
    let u = c1.sees(t);
    assert(u =~= s.take(to - c.pos));
    let n = subword_end(chars, c)->0;
    let m = n.pos - c.pos;
    if single_quoted_length(s) > 0 {
        lemma_single_quoted_of_prefix(s, to - c.pos);
        assert(slice(t, c1, Some(c1.after(m))) =~= slice(chars, c, Some(n)));
    } else {
        assert(token_length(s) > 0);
        lemma_token_of_prefix(s, to - c.pos);
        assert(u[0] == s[0]);
        assert(slice(chars, c, Some(n)) =~= s.take(m));
        assert(s[0] == '$' ==> s.take(m) =~= "$"@);
        assert(single_quoted_length(u) == 0);
        assert(slice(t, c1, Some(c1.after(m))) =~= slice(chars, c, Some(n)));
    }
}

/// A word of plain subwords ends inside the lines that were handed over
/// when it began.
proof fn lemma_plain_word_stays(chars: Seq<char>, c: Cursor)
    requires
        c.within(chars),
        plain_from(chars, c),
    ensures
        word_rest(chars, c).limit == c.limit,
        c.pos <= word_rest(chars, c).pos <= c.limit,
    decreases chars.len() - c.pos, chars.len() - c.limit,
{
    reveal(word_rest);
    reveal(subword_end);
    reveal(subword_at);
    match onward(chars, c, subword_end(chars, c)) {
        Some(next) => {
            lemma_plain_subword_step(chars, c);
            lemma_plain_word_stays(chars, next);
        },
        None => {},
    }
}

/// The rest of a word of plain subwords is read in the same way in the text
/// of the word alone.
proof fn lemma_word_rest_read_again(
    chars: Seq<char>,
    c: Cursor,
    from: int,
    to: int,
    so_far: Seq<SubwordView>,
)
    requires
        c.within(chars),
        0 <= from <= c.pos,
        plain_from(chars, c),
        word_rest(chars, c) == (Cursor { pos: to, limit: c.limit }),
    ensures
        ({
            let t = chars.subrange(from, to);
            let c1 = Cursor { pos: c.pos - from, limit: to - from };
            &&& word_rest(t, c1) == at_end(t)
            &&& word_pieces(t, c1, so_far) == word_pieces(chars, c, so_far)
        }),
    decreases chars.len() - c.pos, chars.len() - c.limit,
{
    reveal(word_rest);
    reveal(word_pieces);
    reveal(subword_end);
    reveal(subword_at);
    lemma_plain_word_stays(chars, c);
    let t = chars.subrange(from, to);
    let c1 = Cursor { pos: c.pos - from, limit: to - from };
    match onward(chars, c, subword_end(chars, c)) {
        Some(next) => {
            lemma_plain_subword_step(chars, c);
            lemma_plain_word_stays(chars, next);
            lemma_subword_read_again(chars, c, from, to);
            lemma_word_rest_read_again(chars, next, from, to, so_far.push(subword_at(chars, c)));
        },
        None => {
            assert(c.pos == to);
            lemma_no_subword_at_the_end(t, c1);
        },
    }
}

/// A word that is made of single-quoted subwords and of unquoted subwords
/// other than `$`, read again alone with all of its text handed over, is read
/// whole and is the same word.
pub proof fn lemma_word_read_again(chars: Seq<char>, c: Cursor)
    requires
        c.within(chars),
        word_end(chars, c) is Some,
        plain_from(chars, c),
    ensures
        ({
            let t = word_at(chars, c).text;
            &&& word_end(t, at_start(t)) == Some(at_end(t))
            &&& word_at(t, at_start(t)) == word_at(chars, c)
        }),
{
    reveal(word_end);
    reveal(word_rest);
    reveal(word_pieces);
    reveal(subword_end);
    reveal(subword_at);
    reveal_strlit("#");
    let first = subword_end(chars, c)->0;
    let e = word_rest(chars, first);
    lemma_plain_subword_step(chars, c);
    lemma_plain_word_stays(chars, first);
    lemma_subword_read_again(chars, c, c.pos, e.pos);
    let t = chars.subrange(c.pos, e.pos);
    assert(word_at(chars, c).text =~= t);
    let c0 = at_start(t);
    let one = Seq::<SubwordView>::empty().push(subword_at(chars, c));
    lemma_word_rest_read_again(chars, first, c.pos, e.pos, one);
    assert(c0.sees(t) =~= c.sees(chars).take(e.pos - c.pos));
    assert(c0.sees(t)[0] == c.sees(chars)[0]);
    assert(slice(t, c0, Some(at_end(t))) =~= t);
}

} // verus!
