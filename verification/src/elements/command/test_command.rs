//! The test command, `[[ ... ]]`.

use vstd::prelude::*;
use crate::elements::grammar::slice;
use crate::elements::grammar::Cursor;
use crate::elements::command::CommandView;
use crate::elements::io::redirect::redirect_views;
use crate::elements::io::redirect::RedirectView;
use crate::elements::grammar::cond_rest;
use crate::elements::command::redirects_at;
use crate::elements::expr::conditional::cond_tokens;
use crate::elements::grammar::ended;
use crate::elements::grammar::test_end;
use crate::elements::command::eat_redirects;
use crate::elements::expr::conditional::ConditionalExpr;
use crate::elements::expr::conditional::FileFacts;
use crate::elements::expr::conditional::cond_value;
use crate::elements::expr::conditional::cond_views;
use crate::elements::expr::conditional::resolved;
use crate::elements::io::redirect::Redirect;
use crate::feeder::Feeder;
use crate::feeder::lemma_took_twice;
use crate::shell::ShellCore;
use crate::text::decimal;

verus! {

#[derive(Debug)]
pub struct TestCommand {
    /// The source text.
    pub text: String,
    /// The expression between the brackets.
    pub cond: Option<ConditionalExpr>,
    /// The redirections behind the closing brackets.
    pub redirects: Vec<Redirect>,
    /// Whether the command has to run in a process of its own.
    pub force_fork: bool,
}

/// The view of a test command.
pub open spec fn test_view(x: TestCommand) -> CommandView {
    CommandView::Test {
        text: x.text@,
        tokens: match x.cond {
            Some(e) => cond_views(e.elements@),
            None => Seq::empty(),
        },
        redirects: redirect_views(x.redirects@),
    }
}

/// The test command at `c`, where one begins there.
pub open spec fn test_at(chars: Seq<char>, c: Cursor) -> CommandView {
    CommandView::Test {
        text: slice(chars, c, test_end(chars, c)),
        tokens: cond_tokens(chars, c.after(2), Seq::empty()),
        redirects: redirects_at(
            chars,
            cond_rest(chars, c.after(2), 0, false)->0.after(2),
            Seq::empty(),
        ),
    }
}

impl TestCommand {
    pub fn new() -> (c: TestCommand)
        ensures
            c.text@.len() == 0,
            c.cond is None,
            c.redirects@.len() == 0,
            !c.force_fork,
    {
        TestCommand { text: String::new(), cond: None, redirects: Vec::new(), force_fork: false }
    }

    /// Runs the command on what the caller knows of the files: the exit
    /// status is 0 where the expression holds, 1 where it does not, and 2 for
    /// an error, whose message is the result and is for the caller to show.
    pub fn run(&self, core: &mut ShellCore, facts: &FileFacts) -> (r: Option<String>)
        requires
            self.cond is Some,
        ensures
            ({
                let (tokens, after) = resolved(cond_views(self.cond->0.elements@), old(core)@);
                let value = match tokens {
                    None => Err(self.cond->0.text@ + ": wrong substitution"@),
                    Some(e) => cond_value(e, facts@, after),
                };
                let status: int = match value {
                    Ok(true) => 0,
                    Ok(false) => 1,
                    Err(_) => 2,
                };
                &&& final(core)@ == after.assign("?"@, decimal(status))
                &&& match value {
                    Ok(_) => r is None,
                    Err(m) => r matches Some(msg) && msg@ == m,
                }
            }),
    {
        proof {
            reveal_strlit("0");
            reveal_strlit("1");
            reveal_strlit("2");
            assert(decimal(0) =~= "0"@);
            assert(decimal(1) =~= "1"@);
            assert(decimal(2) =~= "2"@);
        }
        match &self.cond {
            Some(cond) => match cond.eval(core, facts) {
                Ok(true) => {
                    core.set_var("?", "0");
                    None
                },
                Ok(false) => {
                    core.set_var("?", "1");
                    None
                },
                Err(err_msg) => {
                    core.set_var("?", "2");
                    Some(err_msg)
                },
            },
            None => None,
        }
    }

    /// Takes the test command with which the text begins: `[[`, an
    /// expression, `]]`, and redirections.
    pub fn parse(feeder: &mut Feeder, core: &mut ShellCore) -> (r: Option<TestCommand>)
        requires
            old(feeder)@.wf(),
        ensures
            *final(core) == *old(core),
            test_end(old(feeder)@.chars, old(feeder)@.cursor()) == ended(
                r is Some,
                final(feeder)@,
            ),
            match r {
                Some(c) => final(feeder)@.took(old(feeder)@, c.text@) && c.text@.len() > 0
                    && c.cond is Some && !c.force_fork && crate::feeder::keyword_at(
                    old(feeder)@.remaining(),
                    "[["@,
                ) && cond_views(c.cond->0.elements@) == cond_tokens(
                    old(feeder)@.chars,
                    old(feeder)@.cursor().after(2),
                    Seq::empty(),
                ) && redirect_views(c.redirects@) == redirects_at(
                    old(feeder)@.chars,
                    cond_rest(old(feeder)@.chars, old(feeder)@.cursor().after(2), 0, false)->0.after(
                        2,
                    ),
                    Seq::empty(),
                ) && test_view(c) == test_at(old(feeder)@.chars, old(feeder)@.cursor()),
                None => final(feeder)@ == old(feeder)@,
            },
        decreases old(feeder)@.left(), old(feeder)@.unfed(), 6nat,
    {
        proof {
            reveal(test_end);
            reveal_strlit("[[");
            reveal_strlit("]]");
        }
        if !feeder.starts_with_keyword("[[") {
            return None;
        }
        let pos = feeder.pos;
        let limit = feeder.limit;
        let ghost start = feeder@;
        let mut ans = Self::new();
        ans.text = feeder.consume(2);
        let ghost a = feeder@;
        match ConditionalExpr::parse(feeder, core) {
            Some(e) => {
                let ghost b = feeder@;
                ans.text.append(e.text.as_str());
                ans.cond = Some(e);
                assert(redirect_views(ans.redirects@) =~= Seq::<RedirectView>::empty());
                feeder.take_into(&mut ans.text, 2);
                let ghost c = feeder@;
                eat_redirects(feeder, core, &mut ans.redirects, &mut ans.text);
                proof {
                    lemma_took_twice(start, a, b);
                    lemma_took_twice(start, b, c);
                    lemma_took_twice(start, c, feeder@);
                    assert(ans.text@ =~= feeder@.consumed_since(start));
                }
                Some(ans)
            },
            None => {
                feeder.reset(pos, limit);
                None
            },
        }
    }
}

} // verus!
