//! Simple commands: a command name and its arguments, with redirections
//! among them.

use vstd::prelude::*;
use crate::elements::command::CommandView;
use crate::feeder::scanner::run_length;
use crate::feeder::scanner::CharClass;
use crate::elements::word::WordView;
use crate::elements::io::redirect::redirect_views;
use crate::elements::io::redirect::redirect_at;
use crate::elements::io::redirect::RedirectView;
use crate::elements::grammar::word_end;
use crate::elements::grammar::word_at;
use crate::elements::grammar::slice;
use crate::elements::grammar::skip_blank;
use crate::elements::grammar::redirect_end;
use crate::elements::grammar::onward;
use crate::elements::grammar::Cursor;
use crate::elements::command::for_command::word_views;
use crate::elements::grammar::ended;
use crate::elements::grammar::simple_end;
use crate::elements::grammar::simple_rest;
use crate::elements::io::redirect::Redirect;
use crate::elements::word::Word;
use crate::feeder::Feeder;
use crate::feeder::lemma_took_twice;
use crate::shell::ShellCore;
use crate::text::str_is;

verus! {

#[derive(Debug)]
pub struct SimpleCommand {
    /// The source text.
    pub text: String,
    /// The command name and the arguments, as they are written.
    pub words: Vec<Word>,
    /// The redirections in the order in which they are written.
    pub redirects: Vec<Redirect>,
    /// Whether the command has to run in a process of its own.
    pub force_fork: bool,
}

/// The words that cannot begin a simple command, because they end or
/// continue a compound command.
pub open spec fn reserved(word: Seq<char>) -> bool {
    word == "then"@ || word == "else"@ || word == "elif"@ || word == "fi"@ || word == "do"@ || word
        == "done"@ || word == "esac"@ || word == "in"@ || word == "}"@ || word == "]]"@
}

/// Whether `word` cannot begin a simple command.
pub fn is_reserved(word: &str) -> (b: bool)
    ensures
        b == reserved(word@),
{
    str_is(word, "then") || str_is(word, "else") || str_is(word, "elif") || str_is(word, "fi")
        || str_is(word, "do") || str_is(word, "done") || str_is(word, "esac") || str_is(word, "in")
        || str_is(word, "}") || str_is(word, "]]")
}

/// The words and the redirections of a simple command that goes on at `c`,
/// behind the words `words` and the redirections `redirects`, in the order
/// in which they are written.
pub open spec fn simple_parts(
    chars: Seq<char>,
    c: Cursor,
    words: Seq<WordView>,
    redirects: Seq<RedirectView>,
) -> (Seq<WordView>, Seq<RedirectView>)
    decreases chars.len() - c.pos, chars.len() - c.limit,
{
    let b = skip_blank(chars, c);
    if !c.within(chars) || (words.len() + redirects.len() > 0 && run_length(
        c.sees(chars),
        0,
        CharClass::Blank,
    ) == 0) {
        (words, redirects)
    } else if redirect_end(chars, b) is Some {
        match onward(chars, c, redirect_end(chars, b)) {
            Some(next) => simple_parts(chars, next, words, redirects.push(redirect_at(chars, b))),
            None => (words, redirects),
        }
    } else {
        match onward(chars, c, word_end(chars, b)) {
            Some(next) => if words.len() == 0 && reserved(slice(chars, b, Some(next))) {
                (words, redirects)
            } else {
                simple_parts(chars, next, words.push(word_at(chars, b)), redirects)
            },
            None => (words, redirects),
        }
    }
}

/// The view of a simple command.
pub open spec fn simple_view(x: SimpleCommand) -> CommandView {
    CommandView::Simple {
        text: x.text@,
        words: word_views(x.words@),
        redirects: redirect_views(x.redirects@),
    }
}

/// The simple command at `c`, where one begins there.
pub open spec fn simple_at(chars: Seq<char>, c: Cursor) -> CommandView {
    let (words, redirects) = simple_parts(chars, c, Seq::empty(), Seq::empty());
    CommandView::Simple { text: slice(chars, c, simple_end(chars, c)), words, redirects }
}

impl SimpleCommand {
    pub fn new() -> (c: SimpleCommand)
        ensures
            c.text@.len() == 0,
            c.words@.len() == 0,
            c.redirects@.len() == 0,
            !c.force_fork,
    {
        SimpleCommand {
            text: String::new(),
            words: Vec::new(),
            redirects: Vec::new(),
            force_fork: false,
        }
    }

    /// A simple command has a command name, which is no reserved word.
    pub open spec fn wf(&self) -> bool {
        self.words@.len() > 0 && !reserved(self.words@[0]@.text)
    }

    /// Takes the simple command with which the text begins: redirections or
    /// none, a word that is no reserved word, then words and redirections,
    /// with blanks between them.
    pub fn parse(feeder: &mut Feeder, core: &mut ShellCore) -> (r: Option<SimpleCommand>)
        requires
            old(feeder)@.wf(),
        ensures
            *final(core) == *old(core),
            simple_end(old(feeder)@.chars, old(feeder)@.cursor()) == ended(
                r is Some,
                final(feeder)@,
            ),
            match r {
                Some(c) => final(feeder)@.took(old(feeder)@, c.text@) && c.text@.len() > 0
                    && c.wf() && !c.force_fork && (
                word_views(c.words@),
                redirect_views(c.redirects@),
            ) == simple_parts(old(feeder)@.chars, old(feeder)@.cursor(), Seq::empty(), Seq::empty())
                    && simple_view(c) == simple_at(old(feeder)@.chars, old(feeder)@.cursor()),
                None => final(feeder)@ == old(feeder)@,
            },
        decreases old(feeder)@.left(), old(feeder)@.unfed(), 6nat,
    {
        proof {
            reveal(simple_end);
            reveal(simple_rest);
        }
        let pos = feeder.pos;
        let limit = feeder.limit;
        let ghost start = feeder@;
        let mut ans = SimpleCommand::new();
        assert(feeder@.consumed_since(start) =~= ans.text@);
        assert(word_views(ans.words@) =~= Seq::<WordView>::empty());
        assert(redirect_views(ans.redirects@) =~= Seq::<RedirectView>::empty());
        loop
            invariant_except_break
                simple_parts(
                    start.chars,
                    feeder@.cursor(),
                    word_views(ans.words@),
                    redirect_views(ans.redirects@),
                ) == simple_parts(start.chars, start.cursor(), Seq::empty(), Seq::empty()),
                simple_rest(
                    start.chars,
                    feeder@.cursor(),
                    ans.words@.len() as nat,
                    ans.words@.len() + ans.redirects@.len() > 0,
                ) == simple_end(start.chars, start.cursor()),
            invariant
                start == old(feeder)@,
                start.wf(),
                pos == start.pos,
                limit == start.limit,
                feeder@.follows(start),
                ans.text@ == feeder@.consumed_since(start),
                ans.words@.len() > 0 ==> !reserved(ans.words@[0]@.text) && ans.text@.len() > 0,
                !ans.force_fork,
                *core == *old(core),
            ensures
                simple_end(start.chars, start.cursor()) == if ans.words@.len() == 0 {
                    None
                } else {
                    Some(feeder@.cursor())
                },
                (word_views(ans.words@), redirect_views(ans.redirects@)) == simple_parts(
                    start.chars,
                    start.cursor(),
                    Seq::empty(),
                    Seq::empty(),
                ),
            decreases feeder@.left(),
        {
            let ghost before = feeder@;
            proof {
                reveal(simple_rest);
            }
            let at = feeder.pos;
            let at_limit = feeder.limit;
            let n = feeder.scanner_blank(core);
            if n == 0 && (ans.words.len() > 0 || ans.redirects.len() > 0) {
                break ;
            }
            let blanks = feeder.consume(n);
            let ghost mid = feeder@;
            if let Some(r) = Redirect::parse(feeder, core) {
                ans.text.append(blanks.as_str());
                ans.text.append(r.text.as_str());
                let ghost list = ans.redirects@;
                ans.redirects.push(r);
                assert(redirect_views(ans.redirects@) =~= redirect_views(list).push(r@));
                proof {
                    lemma_took_twice(before, mid, feeder@);
                    lemma_took_twice(start, before, feeder@);
                    assert(ans.text@ =~= feeder@.consumed_since(start));
                }
                continue ;
            }
            match Word::parse(feeder, core) {
                Some(w) => {
                    if ans.words.len() == 0 && is_reserved(w.text.as_str()) {
                        feeder.reset(pos, limit);
                        return None;
                    }
                    ans.text.append(blanks.as_str());
                    ans.text.append(w.text.as_str());
                    let ghost list = ans.words@;
                    ans.words.push(w);
                    assert(word_views(ans.words@) =~= word_views(list).push(w@));
                    proof {
                        lemma_took_twice(before, mid, feeder@);
                        lemma_took_twice(start, before, feeder@);
                        assert(ans.text@ =~= feeder@.consumed_since(start));
                    }
                },
                None => {
                    feeder.reset(at, at_limit);
                    assert(feeder@ == before);
                    break ;
                },
            }
        }
        if ans.words.len() == 0 {
            feeder.reset(pos, limit);
            return None;
        }
        Some(ans)
    }
}

} // verus!
