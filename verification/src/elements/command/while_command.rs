//! The `while` and `until` commands.

use vstd::prelude::*;
use crate::feeder::keyword_at;
use crate::elements::script::script_option;
use crate::elements::grammar::slice;
use crate::elements::grammar::Cursor;
use crate::elements::command::CommandView;
use crate::elements::script::script_at;
use crate::elements::io::redirect::redirect_views;
use crate::elements::io::redirect::RedirectView;
use crate::elements::command::redirects_at;
use crate::elements::command::do_body_at;
use crate::text::views;
use crate::elements::command::eat_do_body;
use crate::elements::grammar::ended;
use crate::elements::grammar::body_end;
use crate::elements::grammar::while_end;
use crate::elements::io::redirect::Redirect;
use crate::elements::script::Script;
use crate::feeder::Feeder;
use crate::feeder::lemma_took_twice;
use crate::shell::ShellCore;

verus! {

#[derive(Debug)]
pub struct WhileCommand {
    /// The source text.
    pub text: String,
    /// The condition.
    pub while_script: Option<Script>,
    /// The body.
    pub do_script: Option<Script>,
    /// Whether the command began with `until`, so that the body runs as long
    /// as the condition fails.
    pub until: bool,
    /// The redirections behind `done`.
    pub redirects: Vec<Redirect>,
    /// Whether the command has to run in a process of its own.
    pub force_fork: bool,
}

/// The view of a `while` or `until` command.
pub open spec fn while_view(x: WhileCommand) -> CommandView
    decreases x,
{
    CommandView::While {
        text: x.text@,
        until: x.until,
        condition: script_option(x.while_script),
        body: script_option(x.do_script),
        redirects: redirect_views(x.redirects@),
    }
}

/// The `while` or `until` command at `c`, where one begins there.
#[verifier::opaque]
pub open spec fn while_at(chars: Seq<char>, c: Cursor) -> CommandView
    decreases chars.len() - c.pos, chars.len() - c.limit, 6nat, 0nat,
{
    let text = slice(chars, c, while_end(chars, c));
    let n = c.after(5);
    let d = body_end(chars, n, seq!["do"@]);
    if c.reaches(n, chars) && d is Some && c.reaches(d->0, chars) {
        let body = do_body_at(chars, d->0);
        CommandView::While {
            text,
            until: keyword_at(c.sees(chars), "until"@),
            condition: Some(script_at(chars, n, seq!["do"@])),
            body: Some(body.0),
            redirects: redirects_at(chars, body.1, Seq::empty()),
        }
    } else {
        CommandView::While {
            text,
            until: false,
            condition: None,
            body: None,
            redirects: Seq::empty(),
        }
    }
}

impl WhileCommand {
    /// The condition and the body are there.
    pub open spec fn wf(&self) -> bool {
        self.while_script is Some && self.do_script is Some
    }

    /// Whether the body runs once more after the condition ended with
    /// `status`: for `while` where the status is 0, for `until` where it is
    /// not; never once an interrupt has arrived.
    pub open spec fn goes_on(&self, status: i32, interrupted: bool) -> bool {
        !interrupted && ((status == 0) != self.until)
    }

    /// Whether the body runs once more after the condition ended with `status`.
    pub fn continues(&self, status: i32, core: &ShellCore) -> (b: bool)
        ensures
            b == self.goes_on(status, core.sigint),
    {
        !core.sigint && ((status == 0) != self.until)
    }

    /// Takes the `while` or `until` command with which the text begins: the
    /// keyword, a condition, `do`, a body, `done`, and redirections.
    pub fn parse(feeder: &mut Feeder, core: &mut ShellCore) -> (r: Option<WhileCommand>)
        requires
            old(feeder)@.wf(),
        ensures
            *final(core) == *old(core),
            while_end(old(feeder)@.chars, old(feeder)@.cursor()) == ended(
                r is Some,
                final(feeder)@,
            ),
            match r {
                Some(c) => final(feeder)@.took(old(feeder)@, c.text@) && c.text@.len() > 0
                    && c.wf() && !c.force_fork && c.until == crate::feeder::keyword_at(
                    old(feeder)@.remaining(),
                    "until"@,
                ) && (c.until || crate::feeder::keyword_at(old(feeder)@.remaining(), "while"@))
                    && c.while_script->0@ == script_at(
                    old(feeder)@.chars,
                    old(feeder)@.cursor().after(5),
                    seq!["do"@],
                ) && c.do_script->0@ == do_body_at(
                    old(feeder)@.chars,
                    body_end(old(feeder)@.chars, old(feeder)@.cursor().after(5), seq!["do"@])->0,
                ).0 && redirect_views(c.redirects@) == redirects_at(
                    old(feeder)@.chars,
                    do_body_at(
                        old(feeder)@.chars,
                        body_end(
                            old(feeder)@.chars,
                            old(feeder)@.cursor().after(5),
                            seq!["do"@],
                        )->0,
                    ).1,
                    Seq::empty(),
                ) && while_view(c) == while_at(old(feeder)@.chars, old(feeder)@.cursor()),
                None => final(feeder)@ == old(feeder)@,
            },
        decreases old(feeder)@.left(), old(feeder)@.unfed(), 6nat,
    {
        proof {
            reveal(while_end);
            reveal(while_at);
            reveal(body_end);
            reveal_strlit("while");
            reveal_strlit("until");
        }
        let until = feeder.starts_with_keyword("until");
        if !until && !feeder.starts_with_keyword("while") {
            return None;
        }
        let pos = feeder.pos;
        let limit = feeder.limit;
        let ghost start = feeder@;
        let mut text = feeder.consume(5);
        let ghost a = feeder@;
        let mut at_do: Vec<String> = Vec::new();
        at_do.push(String::from_str("do"));
        assert(views(at_do@) =~= seq!["do"@]);
        let cond = match Script::parse_until(feeder, core, &at_do) {
            Some(s) => s,
            None => {
                feeder.reset(pos, limit);
                return None;
            },
        };
        let ghost b = feeder@;
        text.append(cond.text.as_str());
        let mut redirects: Vec<Redirect> = Vec::new();
        assert(redirect_views(redirects@) =~= Seq::<RedirectView>::empty());
        assert(body_end(start.chars, a.cursor(), seq!["do"@]) == Some(b.cursor()));
        match eat_do_body(feeder, core, &mut text, &mut redirects) {
            Some(body) => {
                proof {
                    lemma_took_twice(start, a, b);
                    lemma_took_twice(start, b, feeder@);
                    assert(text@ =~= feeder@.consumed_since(start));
                }
                Some(
                    WhileCommand {
                        text,
                        while_script: Some(cond),
                        do_script: Some(body),
                        until,
                        redirects,
                        force_fork: false,
                    },
                )
            },
            None => {
                feeder.reset(pos, limit);
                None
            },
        }
    }
}

} // verus!
