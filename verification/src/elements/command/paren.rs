//! Commands in parentheses: a script that runs in a subshell.

use vstd::prelude::*;
use crate::elements::script::script_option;
use crate::elements::grammar::slice;
use crate::elements::grammar::Cursor;
use crate::elements::command::CommandView;
use crate::elements::script::script_at;
use crate::elements::io::redirect::redirect_views;
use crate::elements::io::redirect::RedirectView;
use crate::elements::command::redirects_at;
use crate::text::views;
use crate::elements::grammar::ended;
use crate::elements::grammar::body_end;
use crate::elements::grammar::paren_end;
use crate::elements::command::eat_redirects;
use crate::elements::io::redirect::Redirect;
use crate::elements::script::Script;
use crate::feeder::Feeder;
use crate::feeder::lemma_took_twice;
use crate::shell::ShellCore;

verus! {

#[derive(Debug)]
pub struct ParenCommand {
    /// The source text.
    pub text: String,
    /// The script between the parentheses.
    pub script: Option<Script>,
    /// The redirections behind the closing parenthesis.
    pub redirects: Vec<Redirect>,
}

/// The view of a command in parentheses.
pub open spec fn paren_view(x: ParenCommand) -> CommandView
    decreases x,
{
    CommandView::Paren {
        text: x.text@,
        script: script_option(x.script),
        redirects: redirect_views(x.redirects@),
    }
}

/// The command in parentheses at `c`, where one begins there.
#[verifier::opaque]
pub open spec fn paren_at(chars: Seq<char>, c: Cursor) -> CommandView
    decreases chars.len() - c.pos, chars.len() - c.limit, 6nat, 0nat,
{
    let text = slice(chars, c, paren_end(chars, c));
    let n = c.after(1);
    if c.reaches(n, chars) {
        CommandView::Paren {
            text,
            script: Some(script_at(chars, n, seq![")"@])),
            redirects: redirects_at(
                chars,
                body_end(chars, n, seq![")"@])->0.after(1),
                Seq::empty(),
            ),
        }
    } else {
        CommandView::Paren { text, script: None, redirects: Seq::empty() }
    }
}

impl ParenCommand {
    pub fn new() -> (c: ParenCommand)
        ensures
            c.text@.len() == 0,
            c.script is None,
            c.redirects@.len() == 0,
    {
        ParenCommand { text: String::new(), script: None, redirects: Vec::new() }
    }

    /// What the child process does before it runs the script: it becomes a
    /// subshell of the shell, one level deeper and without jobs. The shell
    /// that started it stays as it is.
    pub fn exec(&self, core: &mut ShellCore)
        ensures
            final(core)@ == old(core)@.in_subshell(),
            old(core).subshell_level < u64::MAX ==> final(core).subshell_level == old(
                core,
            ).subshell_level + 1,
            final(core)@.jobs.entries.len() == 0,
    {
        core.enter_subshell();
    }

    /// Takes the command in parentheses with which the text begins: `(`, a
    /// script, `)`, and redirections.
    pub fn parse(feeder: &mut Feeder, core: &mut ShellCore) -> (r: Option<ParenCommand>)
        requires
            old(feeder)@.wf(),
        ensures
            *final(core) == *old(core),
            paren_end(old(feeder)@.chars, old(feeder)@.cursor()) == ended(
                r is Some,
                final(feeder)@,
            ),
            match r {
                Some(c) => final(feeder)@.took(old(feeder)@, c.text@) && c.text@.len() > 0
                    && c.script is Some && "("@.is_prefix_of(old(feeder)@.remaining())
                    && c.script->0@ == script_at(
                    old(feeder)@.chars,
                    old(feeder)@.cursor().after(1),
                    seq![")"@],
                ) && redirect_views(c.redirects@) == redirects_at(
                    old(feeder)@.chars,
                    body_end(old(feeder)@.chars, old(feeder)@.cursor().after(1), seq![")"@])->0.after(
                        1,
                    ),
                    Seq::empty(),
                ) && paren_view(c) == paren_at(old(feeder)@.chars, old(feeder)@.cursor()),
                None => final(feeder)@ == old(feeder)@,
            },
        decreases old(feeder)@.left(), old(feeder)@.unfed(), 6nat,
    {
        proof {
            reveal(paren_end);
            reveal(paren_at);
            reveal(body_end);
            reveal_strlit("(");
            reveal_strlit(")");
        }
        if !feeder.starts_with("(") {
            return None;
        }
        let pos = feeder.pos;
        let limit = feeder.limit;
        let ghost start = feeder@;
        let mut ans = ParenCommand::new();
        feeder.take_into(&mut ans.text, 1);
        let ghost a = feeder@;
        let mut ends: Vec<String> = Vec::new();
        ends.push(String::from_str(")"));
        assert(views(ends@) =~= seq![")"@]);
        let script = match Script::parse_until(feeder, core, &ends) {
            Some(s) => s,
            None => {
                feeder.reset(pos, limit);
                return None;
            },
        };
        let ghost b = feeder@;
        assert(body_end(start.chars, a.cursor(), seq![")"@]) == Some(b.cursor()));
        if !feeder.starts_with(")") {
            feeder.reset(pos, limit);
            return None;
        }
        ans.text.append(script.text.as_str());
        feeder.take_into(&mut ans.text, 1);
        let ghost c = feeder@;
        proof {
            lemma_took_twice(start, a, b);
            lemma_took_twice(start, b, c);
            assert(ans.text@ =~= c.consumed_since(start));
        }
        ans.script = Some(script);
        assert(redirect_views(ans.redirects@) =~= Seq::<RedirectView>::empty());
        eat_redirects(feeder, core, &mut ans.redirects, &mut ans.text);
        proof {
            lemma_took_twice(start, c, feeder@);
            assert(ans.text@ =~= feeder@.consumed_since(start));
        }
        Some(ans)
    }
}

} // verus!
