//! Commands: the simple command and the compound ones.

pub mod simple;
pub mod paren;
pub mod if_command;
pub mod while_command;
pub mod arithmetic;
pub mod for_command;
pub mod test_command;

use vstd::prelude::*;
use crate::elements::word::WordView;
use crate::elements::grammar::while_end;
use crate::elements::grammar::test_end;
use crate::elements::grammar::paren_end;
use crate::elements::grammar::if_end;
use crate::elements::grammar::for_end;
use crate::elements::grammar::arithmetic_command_end;
use crate::elements::expr::conditional::CondView;
use crate::elements::expr::arithmetic::ExprView;
use crate::elements::command::while_command::while_view;
use crate::elements::command::while_command::while_at;
use crate::elements::command::test_command::test_view;
use crate::elements::command::test_command::test_at;
use crate::elements::command::simple::simple_view;
use crate::elements::command::simple::simple_at;
use crate::elements::command::paren::paren_view;
use crate::elements::command::paren::paren_at;
use crate::elements::command::if_command::if_view;
use crate::elements::command::if_command::if_at;
use crate::elements::command::for_command::for_view;
use crate::elements::command::for_command::for_at;
use crate::elements::command::for_command::ForHead;
use crate::elements::command::arithmetic::arithmetic_command_view;
use crate::elements::command::arithmetic::arithmetic_command_at;
use crate::elements::script::script_at;
use crate::elements::script::ScriptView;
use crate::elements::grammar::behind_keyword;
use crate::text::views;
use crate::elements::script::Script;
use crate::elements::grammar::command_end;
use crate::elements::grammar::ended;
use crate::elements::grammar::skip_blank;
use crate::elements::grammar::redirect_end;
use crate::elements::grammar::onward;
use crate::elements::grammar::Cursor;
use crate::elements::grammar::skip_to_next;
use crate::elements::grammar::do_end;
use crate::elements::grammar::body_end;
use crate::elements::grammar::skip_space;
use crate::elements::grammar::skip_blank_comment;
use crate::elements::grammar::redirects_end;
use crate::elements::command::simple::SimpleCommand;
use crate::elements::command::paren::ParenCommand;
use crate::elements::command::if_command::IfCommand;
use crate::elements::command::for_command::ForCommand;
use crate::elements::command::while_command::WhileCommand;
use crate::elements::command::arithmetic::ArithmeticCommand;
use crate::elements::command::test_command::TestCommand;
use crate::elements::io::redirect::Redirect;
use crate::elements::io::redirect::RedirectView;
use crate::elements::io::redirect::redirect_at;
use crate::elements::io::redirect::redirect_views;
use crate::feeder::Feeder;
use crate::feeder::lemma_took_twice;
use crate::shell::ShellCore;

verus! {

/// One command of a pipeline.
#[derive(Debug)]
pub enum Command {
    Simple(SimpleCommand),
    If(IfCommand),
    For(ForCommand),
    While(WhileCommand),
    Paren(ParenCommand),
    Arithmetic(ArithmeticCommand),
    Test(TestCommand),
}

/// A command as plain mathematical data: its text and what it holds.
pub enum CommandView {
    Simple { text: Seq<char>, words: Seq<WordView>, redirects: Seq<RedirectView> },
    If {
        text: Seq<char>,
        conditions: Seq<ScriptView>,
        branches: Seq<ScriptView>,
        other: Option<ScriptView>,
        redirects: Seq<RedirectView>,
    },
    For { text: Seq<char>, head: ForHead, body: Option<ScriptView>, redirects: Seq<RedirectView> },
    While {
        text: Seq<char>,
        until: bool,
        condition: Option<ScriptView>,
        body: Option<ScriptView>,
        redirects: Seq<RedirectView>,
    },
    Paren { text: Seq<char>, script: Option<ScriptView>, redirects: Seq<RedirectView> },
    Arithmetic { text: Seq<char>, expressions: Seq<ExprView>, redirects: Seq<RedirectView> },
    Test { text: Seq<char>, tokens: Seq<CondView>, redirects: Seq<RedirectView> },
}

/// The view of a command.
pub open spec fn command_view(c: Command) -> CommandView
    decreases c,
{
    match c {
        Command::Simple(x) => simple_view(x),
        Command::If(x) => if_view(x),
        Command::For(x) => for_view(x),
        Command::While(x) => while_view(x),
        Command::Paren(x) => paren_view(x),
        Command::Arithmetic(x) => arithmetic_command_view(x),
        Command::Test(x) => test_view(x),
    }
}

/// The command at `c`, where one begins there. The kinds are tried in this
/// order: `if`, `for`, `while` and `until`, arithmetic, test, parentheses,
/// simple.
#[verifier::opaque]
pub open spec fn command_at(chars: Seq<char>, c: Cursor) -> CommandView
    decreases chars.len() - c.pos, chars.len() - c.limit, 7nat, 0nat,
{
    if if_end(chars, c) is Some {
        if_at(chars, c)
    } else if for_end(chars, c) is Some {
        for_at(chars, c)
    } else if while_end(chars, c) is Some {
        while_at(chars, c)
    } else if arithmetic_command_end(chars, c) is Some {
        arithmetic_command_at(chars, c)
    } else if test_end(chars, c) is Some {
        test_at(chars, c)
    } else if paren_end(chars, c) is Some {
        paren_at(chars, c)
    } else {
        simple_at(chars, c)
    }
}

impl Command {
    /// The source text of the command.
    pub open spec fn text(&self) -> Seq<char> {
        match self {
            Command::Simple(c) => c.text@,
            Command::If(c) => c.text@,
            Command::For(c) => c.text@,
            Command::While(c) => c.text@,
            Command::Paren(c) => c.text@,
            Command::Arithmetic(c) => c.text@,
            Command::Test(c) => c.text@,
        }
    }

    /// The source text of the command.
    pub fn get_text(&self) -> (t: String)
        ensures
            t@ == self.text(),
    {
        match self {
            Command::Simple(c) => c.text.clone(),
            Command::If(c) => c.text.clone(),
            Command::For(c) => c.text.clone(),
            Command::While(c) => c.text.clone(),
            Command::Paren(c) => c.text.clone(),
            Command::Arithmetic(c) => c.text.clone(),
            Command::Test(c) => c.text.clone(),
        }
    }

    /// Whether the command is a compound one that can run inside the shell: any
    /// but the simple command and the one in parentheses, which runs in a
    /// subshell.
    pub open spec fn is_compound(&self) -> bool {
        self is If || self is For || self is While || self is Arithmetic || self is Test
    }

    /// Whether the command was marked to run in a process of its own.
    pub open spec fn forced(&self) -> bool {
        match self {
            Command::Simple(c) => c.force_fork,
            Command::If(c) => c.force_fork,
            Command::For(c) => c.force_fork,
            Command::While(c) => c.force_fork,
            Command::Paren(_) => true,
            Command::Arithmetic(c) => c.force_fork,
            Command::Test(c) => c.force_fork,
        }
    }

    /// Whether the command has to run in a process of its own whatever stands
    /// around it.
    pub fn force_fork(&self) -> (b: bool)
        ensures
            b == self.forced(),
    {
        match self {
            Command::Simple(c) => c.force_fork,
            Command::If(c) => c.force_fork,
            Command::For(c) => c.force_fork,
            Command::While(c) => c.force_fork,
            Command::Paren(_) => true,
            Command::Arithmetic(c) => c.force_fork,
            Command::Test(c) => c.force_fork,
        }
    }

    /// Marks the command to run in a process of its own.
    pub fn set_force_fork(&mut self)
        ensures
            final(self).forced(),
            final(self).text() == old(self).text(),
    {
        match self {
            Command::Simple(c) => {
                c.force_fork = true;
            },
            Command::If(c) => {
                c.force_fork = true;
            },
            Command::For(c) => {
                c.force_fork = true;
            },
            Command::While(c) => {
                c.force_fork = true;
            },
            Command::Paren(_) => {},
            Command::Arithmetic(c) => {
                c.force_fork = true;
            },
            Command::Test(c) => {
                c.force_fork = true;
            },
        }
    }

    /// Takes the command with which the text begins: a compound command where
    /// its first word says so, else a simple command.
    pub fn parse(feeder: &mut Feeder, core: &mut ShellCore) -> (r: Option<Command>)
        requires
            old(feeder)@.wf(),
        ensures
            *final(core) == *old(core),
            command_end(old(feeder)@.chars, old(feeder)@.cursor()) == ended(
                r is Some,
                final(feeder)@,
            ),
            match r {
                Some(c) => final(feeder)@.took(old(feeder)@, c.text()) && c.text().len() > 0
                    && command_view(c) == command_at(old(feeder)@.chars, old(feeder)@.cursor()),
                None => final(feeder)@ == old(feeder)@,
            },
        decreases old(feeder)@.left(), old(feeder)@.unfed(), 7nat,
    {
        proof {
            reveal(command_end);
            reveal(command_at);
        }
        if let Some(c) = IfCommand::parse(feeder, core) {
            return Some(Command::If(c));
        }
        if let Some(c) = ForCommand::parse(feeder, core) {
            return Some(Command::For(c));
        }
        if let Some(c) = WhileCommand::parse(feeder, core) {
            return Some(Command::While(c));
        }
        if let Some(c) = ArithmeticCommand::parse(feeder, core) {
            return Some(Command::Arithmetic(c));
        }
        if let Some(c) = TestCommand::parse(feeder, core) {
            return Some(Command::Test(c));
        }
        if let Some(c) = ParenCommand::parse(feeder, core) {
            return Some(Command::Paren(c));
        }
        if let Some(c) = SimpleCommand::parse(feeder, core) {
            return Some(Command::Simple(c));
        }
        None
    }
}

/// Takes blanks, and a comment behind them, into `text`.
pub fn eat_blank_with_comment(feeder: &mut Feeder, core: &mut ShellCore, text: &mut String)
    requires
        old(feeder)@.wf(),
    ensures
        *final(core) == *old(core),
        final(feeder)@.follows(old(feeder)@),
        final(feeder)@.limit == old(feeder)@.limit,
        final(text)@ == old(text)@ + final(feeder)@.consumed_since(old(feeder)@),
        final(feeder)@.cursor() == skip_blank_comment(old(feeder)@.chars, old(feeder)@.cursor()),
{
    let ghost start = feeder@;
    let n = feeder.scanner_blank(core);
    feeder.take_into(text, n);
    let ghost mid = feeder@;
    let m = feeder.scanner_comment();
    feeder.take_into(text, m);
    proof {
        lemma_took_twice(start, mid, feeder@);
        assert(text@ =~= old(text)@ + feeder@.consumed_since(start));
    }
}

/// Takes blanks, newlines and comments into `text`, as many as there are.
pub fn eat_space_with_comments(feeder: &mut Feeder, core: &mut ShellCore, text: &mut String)
    requires
        old(feeder)@.wf(),
    ensures
        *final(core) == *old(core),
        final(feeder)@.follows(old(feeder)@),
        final(feeder)@.limit == old(feeder)@.limit,
        final(text)@ == old(text)@ + final(feeder)@.consumed_since(old(feeder)@),
        final(feeder)@.cursor() == skip_space(old(feeder)@.chars, old(feeder)@.cursor()),
{
    let ghost start = feeder@;
    assert(old(text)@ + feeder@.consumed_since(start) =~= old(text)@);
    loop
        invariant
            start == old(feeder)@,
            start.wf(),
            feeder@.follows(start),
            feeder@.limit == start.limit,
            text@ == old(text)@ + feeder@.consumed_since(start),
            *core == *old(core),
            skip_space(start.chars, feeder@.cursor()) == skip_space(start.chars, start.cursor()),
        ensures
            skip_space(start.chars, start.cursor()) == feeder@.cursor(),
        decreases feeder@.left(),
    {
        let ghost before = feeder@;
        let n = feeder.scanner_multiline_blank(core);
        feeder.take_into(text, n);
        let ghost mid = feeder@;
        let m = feeder.scanner_comment();
        feeder.take_into(text, m);
        proof {
            lemma_took_twice(before, mid, feeder@);
            lemma_took_twice(start, before, feeder@);
            assert(text@ =~= old(text)@ + feeder@.consumed_since(start));
        }
        if n + m == 0 {
            break ;
        }
    }
}

/// Takes blanks and newlines into `text` where a command may go on on a
/// later line: more lines are asked for until something follows or the input
/// ends.
pub fn eat_to_next(feeder: &mut Feeder, core: &mut ShellCore, text: &mut String)
    requires
        old(feeder)@.wf(),
    ensures
        *final(core) == *old(core),
        final(feeder)@.follows(old(feeder)@),
        final(text)@ == old(text)@ + final(feeder)@.consumed_since(old(feeder)@),
        final(feeder)@.cursor() == skip_to_next(old(feeder)@.chars, old(feeder)@.cursor()),
{
    let ghost start = feeder@;
    assert(old(text)@ + feeder@.consumed_since(start) =~= old(text)@);
    loop
        invariant_except_break
            skip_to_next(start.chars, feeder@.cursor()) == skip_to_next(
                start.chars,
                start.cursor(),
            ),
        invariant
            start == old(feeder)@,
            start.wf(),
            feeder@.follows(start),
            text@ == old(text)@ + feeder@.consumed_since(start),
            *core == *old(core),
        ensures
            skip_to_next(start.chars, start.cursor()) == feeder@.cursor(),
        decreases feeder@.left(), feeder@.unfed(),
    {
        let ghost before = feeder@;
        let m = feeder.scanner_multiline_blank(core);
        feeder.take_into(text, m);
        let ghost mid = feeder@;
        proof {
            lemma_took_twice(start, before, mid);
            assert(text@ =~= old(text)@ + mid.consumed_since(start));
        }
        if feeder.len() > 0 || !feeder.feed_additional_line(core) {
            break ;
        }
        assert(feeder@.consumed_since(start) =~= mid.consumed_since(start));
    }
}

/// The body of a loop whose `do` stands at `c`, and the cursor behind its
/// `done`.
#[verifier::opaque]
pub open spec fn do_body_at(chars: Seq<char>, c: Cursor) -> (ScriptView, Cursor)
    decreases chars.len() - c.pos, chars.len() - c.limit, 5nat, 3nat,
{
    match behind_keyword(chars, c, "do"@) {
        Some(y) => (
            script_at(chars, y, seq!["done"@]),
            match body_end(chars, y, seq!["done"@]) {
                Some(z) => match behind_keyword(chars, z, "done"@) {
                    Some(w) => w,
                    None => z,
                },
                None => y,
            },
        ),
        None => (ScriptView { text: Seq::empty(), jobs: Seq::empty(), job_ends: Seq::empty() }, c),
    }
}

/// Takes the body of a loop: `do`, a script, `done`, and redirections. The
/// text goes into `text` and the redirections into `redirects`. `None` where
/// one of them is missing; the feeder then stands where it came to.
pub fn eat_do_body(
    feeder: &mut Feeder,
    core: &mut ShellCore,
    text: &mut String,
    redirects: &mut Vec<Redirect>,
) -> (r: Option<Script>)
    requires
        old(feeder)@.wf(),
    ensures
        *final(core) == *old(core),
        final(feeder)@.follows(old(feeder)@),
        r is Some ==> final(text)@ == old(text)@ + final(feeder)@.consumed_since(old(feeder)@)
            && final(feeder)@.pos > old(feeder)@.pos,
        r matches Some(s) ==> s.wf(),
        old(redirects)@.is_prefix_of(final(redirects)@),
        do_end(old(feeder)@.chars, old(feeder)@.cursor()) == ended(r is Some, final(feeder)@),
        r is None ==> final(redirects)@ == old(redirects)@,
        r matches Some(s) ==> s@ == do_body_at(old(feeder)@.chars, old(feeder)@.cursor()).0
            && redirect_views(final(redirects)@) == redirects_at(
            old(feeder)@.chars,
            do_body_at(old(feeder)@.chars, old(feeder)@.cursor()).1,
            redirect_views(old(redirects)@),
        ),
    decreases old(feeder)@.left(), old(feeder)@.unfed(), 5nat, 3nat,
{
    proof {
        reveal(do_end);
        reveal(do_body_at);
        reveal(body_end);
        reveal(redirects_end);
        reveal_strlit("do");
        reveal_strlit("done");
    }
    let ghost start = feeder@;
    if !feeder.starts_with_keyword("do") {
        return None;
    }
    feeder.take_into(text, 2);
    let ghost a = feeder@;
    let mut at_done: Vec<String> = Vec::new();
    at_done.push(String::from_str("done"));
    assert(views(at_done@) =~= seq!["done"@]);
    let body = match Script::parse_until(feeder, core, &at_done) {
        Some(s) => s,
        None => {
            return None;
        },
    };
    let ghost b = feeder@;
    assert(body_end(start.chars, a.cursor(), seq!["done"@]) == Some(b.cursor()));
    if !feeder.starts_with_keyword("done") {
        return None;
    }
    text.append(body.text.as_str());
    feeder.take_into(text, 4);
    let ghost c = feeder@;
    eat_redirects(feeder, core, redirects, text);
    proof {
        lemma_took_twice(start, a, b);
        lemma_took_twice(start, b, c);
        lemma_took_twice(start, c, feeder@);
        assert(text@ =~= old(text)@ + feeder@.consumed_since(start));
    }
    Some(body)
}

/// The redirections at `c`, each with the blanks before it, behind the
/// redirections `so_far`.
pub open spec fn redirects_at(chars: Seq<char>, c: Cursor, so_far: Seq<RedirectView>) -> Seq<
    RedirectView,
>
    decreases chars.len() - c.pos, chars.len() - c.limit,
{
    if !c.within(chars) {
        so_far
    } else {
        match onward(chars, c, redirect_end(chars, skip_blank(chars, c))) {
            Some(next) => redirects_at(
                chars,
                next,
                so_far.push(redirect_at(chars, skip_blank(chars, c))),
            ),
            None => so_far,
        }
    }
}

/// Takes the redirections that follow, with the blanks before each, into
/// `redirects` and their text into `text`.
pub fn eat_redirects(
    feeder: &mut Feeder,
    core: &mut ShellCore,
    redirects: &mut Vec<Redirect>,
    text: &mut String,
)
    requires
        old(feeder)@.wf(),
    ensures
        *final(core) == *old(core),
        final(feeder)@.follows(old(feeder)@),
        final(text)@ == old(text)@ + final(feeder)@.consumed_since(old(feeder)@),
        old(redirects)@.is_prefix_of(final(redirects)@),
        final(feeder)@.cursor() == redirects_end(old(feeder)@.chars, old(feeder)@.cursor()),
        redirect_views(final(redirects)@) == redirects_at(
            old(feeder)@.chars,
            old(feeder)@.cursor(),
            redirect_views(old(redirects)@),
        ),
    decreases old(feeder)@.left(), old(feeder)@.unfed(), 5nat,
{
    let ghost start = feeder@;
    assert(old(text)@ + feeder@.consumed_since(start) =~= old(text)@);
    loop
        invariant
            start == old(feeder)@,
            start.wf(),
            feeder@.follows(start),
            text@ == old(text)@ + feeder@.consumed_since(start),
            old(redirects)@.is_prefix_of(redirects@),
            *core == *old(core),
            redirects_end(start.chars, feeder@.cursor()) == redirects_end(
                start.chars,
                start.cursor(),
            ),
            redirects_at(start.chars, feeder@.cursor(), redirect_views(redirects@))
                == redirects_at(start.chars, start.cursor(), redirect_views(old(redirects)@)),
        ensures
            redirects_end(start.chars, start.cursor()) == feeder@.cursor(),
            redirect_views(redirects@) == redirects_at(
                start.chars,
                start.cursor(),
                redirect_views(old(redirects)@),
            ),
        decreases feeder@.left(),
    {
        let ghost before = feeder@;
        proof {
            reveal(redirects_end);
        }
        let pos = feeder.pos;
        let limit = feeder.limit;
        let n = feeder.scanner_blank(core);
        let blanks = feeder.consume(n);
        let ghost mid = feeder@;
        match Redirect::parse(feeder, core) {
            Some(r) => {
                text.append(blanks.as_str());
                text.append(r.text.as_str());
                let ghost list = redirects@;
                redirects.push(r);
                proof {
                    assert(redirect_views(redirects@) =~= redirect_views(list).push(r@));
                    lemma_took_twice(before, mid, feeder@);
                    lemma_took_twice(start, before, feeder@);
                    assert(text@ =~= old(text)@ + feeder@.consumed_since(start));
                    assert(redirects@.subrange(0, old(redirects)@.len() as int) =~= list.subrange(
                        0,
                        old(redirects)@.len() as int,
                    ));
                }
            },
            None => {
                feeder.reset(pos, limit);
                assert(feeder@ == before);
                break ;
            },
        }
    }
}

} // verus!
