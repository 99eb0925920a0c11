//! The `if` command.

use vstd::prelude::*;
use crate::elements::script::script_views;
use crate::elements::script::script_option;
use crate::elements::grammar::slice;
use crate::elements::command::CommandView;
use crate::elements::script::script_at;
use crate::elements::script::ScriptView;
use crate::elements::io::redirect::redirect_views;
use crate::elements::io::redirect::RedirectView;
use crate::elements::grammar::along;
use crate::elements::grammar::Cursor;
use crate::elements::command::redirects_at;
use crate::feeder::keyword_at;
use crate::text::views;
use crate::elements::grammar::ended;
use crate::elements::grammar::behind_keyword;
use crate::elements::grammar::body_end;
use crate::elements::grammar::script_rest;
use crate::elements::grammar::fi_end;
use crate::elements::grammar::if_end;
use crate::elements::grammar::if_rest;
use crate::elements::command::eat_redirects;
use crate::elements::io::redirect::Redirect;
use crate::elements::script::Script;
use crate::feeder::Feeder;
use crate::feeder::lemma_took_twice;
use crate::shell::ShellCore;

verus! {

#[derive(Debug)]
pub struct IfCommand {
    /// The source text.
    pub text: String,
    /// The conditions behind `if` and each `elif`.
    pub if_elif_scripts: Vec<Script>,
    /// The script behind the `then` of each condition.
    pub then_scripts: Vec<Script>,
    /// The script behind `else`.
    pub else_script: Option<Script>,
    /// The redirections behind `fi`.
    pub redirects: Vec<Redirect>,
    /// Whether the command has to run in a process of its own.
    pub force_fork: bool,
}

/// What is to be run next in an `if` command.
#[derive(Debug, Clone, Copy, PartialEq, Eq, Structural)]
pub enum IfStep {
    /// The condition with this index.
    Condition(usize),
    /// The script behind the `then` with this index.
    Then(usize),
    /// The script behind `else`.
    Else,
    /// Nothing: the command is over.
    Done,
}

/// The scripts of an `if` command as plain mathematical data, and the place
/// where its `fi` stands.
pub struct IfParts {
    pub conditions: Seq<ScriptView>,
    pub branches: Seq<ScriptView>,
    pub other: Option<ScriptView>,
    pub end: Cursor,
}

/// The scripts of an `if` command that goes on at `c` with `word`, which is
/// `if` or `elif`, behind the conditions `conditions` and the scripts
/// `branches` that belong to them.
#[verifier::opaque]
pub open spec fn if_parts(
    chars: Seq<char>,
    c: Cursor,
    word: Seq<char>,
    conditions: Seq<ScriptView>,
    branches: Seq<ScriptView>,
) -> IfParts
    decreases chars.len() - c.pos, chars.len() - c.limit, 6nat, 0nat,
{
    let stop = IfParts { conditions, branches, other: None, end: c };
    match behind_keyword(chars, c, word) {
        Some(n) => match along(chars, n, body_end(chars, n, seq!["then"@])) {
            Some(t) => match behind_keyword(chars, t, "then"@) {
                Some(u) => match body_end(chars, u, seq!["fi"@, "else"@, "elif"@]) {
                    Some(b) => {
                        let conditions = conditions.push(script_at(chars, n, seq!["then"@]));
                        let branches = branches.push(
                            script_at(chars, u, seq!["fi"@, "else"@, "elif"@]),
                        );
                        if !c.reaches(b, chars) {
                            stop
                        } else if behind_keyword(chars, b, "else"@) is Some {
                            let x = behind_keyword(chars, b, "else"@)->0;
                            match body_end(chars, x, seq!["fi"@]) {
                                Some(e) => IfParts {
                                    conditions,
                                    branches,
                                    other: Some(script_at(chars, x, seq!["fi"@])),
                                    end: e,
                                },
                                None => stop,
                            }
                        } else if behind_keyword(chars, b, "fi"@) is Some {
                            IfParts { conditions, branches, other: None, end: b }
                        } else if behind_keyword(chars, b, "elif"@) is Some {
                            if_parts(chars, b, "elif"@, conditions, branches)
                        } else {
                            stop
                        }
                    },
                    None => stop,
                },
                None => stop,
            },
            None => stop,
        },
        None => stop,
    }
}

/// The view of an `if` command.
pub open spec fn if_view(x: IfCommand) -> CommandView
    decreases x,
{
    CommandView::If {
        text: x.text@,
        conditions: script_views(x.if_elif_scripts@),
        branches: script_views(x.then_scripts@),
        other: script_option(x.else_script),
        redirects: redirect_views(x.redirects@),
    }
}

/// The `if` command at `c`, where one begins there.
#[verifier::opaque]
pub open spec fn if_at(chars: Seq<char>, c: Cursor) -> CommandView
    decreases chars.len() - c.pos, chars.len() - c.limit, 6nat, 1nat,
{
    let parts = if_parts(chars, c, "if"@, Seq::empty(), Seq::empty());
    CommandView::If {
        text: slice(chars, c, if_end(chars, c)),
        conditions: parts.conditions,
        branches: parts.branches,
        other: parts.other,
        redirects: redirects_at(chars, parts.end.after(2), Seq::empty()),
    }
}

impl IfCommand {
    /// The scripts of the command as plain mathematical data.
    pub open spec fn parts(&self, end: Cursor) -> IfParts {
        IfParts {
            conditions: script_views(self.if_elif_scripts@),
            branches: script_views(self.then_scripts@),
            other: match self.else_script {
                Some(s) => Some(s@),
                None => None,
            },
            end,
        }
    }

    pub fn new() -> (c: IfCommand)
        ensures
            c.text@.len() == 0,
            c.if_elif_scripts@.len() == 0,
            c.then_scripts@.len() == 0,
            c.else_script is None,
            c.redirects@.len() == 0,
            !c.force_fork,
    {
        IfCommand {
            text: String::new(),
            if_elif_scripts: Vec::new(),
            then_scripts: Vec::new(),
            else_script: None,
            redirects: Vec::new(),
            force_fork: false,
        }
    }

    /// There is a condition, and a `then` for each condition.
    pub open spec fn wf(&self) -> bool {
        self.if_elif_scripts@.len() > 0 && self.then_scripts@.len() == self.if_elif_scripts@.len()
    }

    /// What follows the condition `i`, which ended with `status`: its `then`
    /// where the status is 0; else the next condition, the `else` where there
    /// is no further condition, or nothing.
    pub open spec fn after_condition(&self, i: int, status: i32) -> IfStep {
        if status == 0 {
            IfStep::Then(i as usize)
        } else if i + 1 < self.if_elif_scripts@.len() {
            IfStep::Condition((i + 1) as usize)
        } else if self.else_script is Some {
            IfStep::Else
        } else {
            IfStep::Done
        }
    }

    /// The first thing to run.
    pub fn first_step(&self) -> (step: IfStep)
        requires
            self.wf(),
        ensures
            step == IfStep::Condition(0),
    {
        IfStep::Condition(0)
    }

    /// What is to be run after `step` ended with the exit status `status`.
    /// After a `then` or the `else` the command is over.
    pub fn next_step(&self, step: IfStep, status: i32) -> (next: IfStep)
        requires
            self.wf(),
            step matches IfStep::Condition(i) ==> i < self.if_elif_scripts@.len(),
        ensures
            next == match step {
                IfStep::Condition(i) => self.after_condition(i as int, status),
                _ => IfStep::Done,
            },
            next matches IfStep::Condition(i) ==> i < self.if_elif_scripts@.len(),
            next matches IfStep::Then(i) ==> i < self.then_scripts@.len(),
            next is Else ==> self.else_script is Some,
    {
        match step {
            IfStep::Condition(i) => {
                if status == 0 {
                    IfStep::Then(i)
                } else if i < self.if_elif_scripts.len() - 1 {
                    IfStep::Condition(i + 1)
                } else if self.else_script.is_some() {
                    IfStep::Else
                } else {
                    IfStep::Done
                }
            },
            _ => IfStep::Done,
        }
    }

    /// Takes the `if` command with which the text begins: `if`, a condition,
    /// `then`, a script; then any number of `elif` with condition, `then` and
    /// script; then `else` and a script, or not; then `fi` and redirections.
    pub fn parse(feeder: &mut Feeder, core: &mut ShellCore) -> (r: Option<IfCommand>)
        requires
            old(feeder)@.wf(),
        ensures
            *final(core) == *old(core),
            if_end(old(feeder)@.chars, old(feeder)@.cursor()) == ended(
                r is Some,
                final(feeder)@,
            ),
            match r {
                Some(c) => final(feeder)@.took(old(feeder)@, c.text@) && c.text@.len() > 0
                    && c.wf() && !c.force_fork && crate::feeder::keyword_at(
                    old(feeder)@.remaining(),
                    "if"@,
                ) && ({
                    let parts = if_parts(
                        old(feeder)@.chars,
                        old(feeder)@.cursor(),
                        "if"@,
                        Seq::empty(),
                        Seq::empty(),
                    );
                    &&& c.parts(parts.end) == parts
                    &&& redirect_views(c.redirects@) == redirects_at(
                        old(feeder)@.chars,
                        parts.end.after(2),
                        Seq::empty(),
                    )
                }) && if_view(c) == if_at(old(feeder)@.chars, old(feeder)@.cursor()),
                None => final(feeder)@ == old(feeder)@,
            },
        decreases old(feeder)@.left(), old(feeder)@.unfed(), 6nat,
    {
        proof {
            reveal(if_end);
            reveal(if_at);
            reveal(if_parts);
            reveal(if_rest);
            reveal(fi_end);
            reveal(body_end);
            reveal_strlit("if");
        }
        if !feeder.starts_with_keyword("if") {
            return None;
        }
        let pos = feeder.pos;
        let limit = feeder.limit;
        let ghost start = feeder@;
        let mut ans = IfCommand::new();
        let mut at_then: Vec<String> = Vec::new();
        at_then.push(String::from_str("then"));
        let mut at_ends: Vec<String> = Vec::new();
        at_ends.push(String::from_str("fi"));
        at_ends.push(String::from_str("else"));
        at_ends.push(String::from_str("elif"));
        let mut at_fi: Vec<String> = Vec::new();
        at_fi.push(String::from_str("fi"));
        let mut word_len: usize = 2;
        assert(feeder@.consumed_since(start) =~= ans.text@);
        assert(views(at_then@) =~= seq!["then"@]);
        assert(views(at_ends@) =~= seq!["fi"@, "else"@, "elif"@]);
        assert(views(at_fi@) =~= seq!["fi"@]);
        let ghost word = "if"@;
        assert(script_views(ans.if_elif_scripts@) =~= Seq::<ScriptView>::empty());
        assert(script_views(ans.then_scripts@) =~= Seq::<ScriptView>::empty());
        assert(redirect_views(ans.redirects@) =~= Seq::<RedirectView>::empty());
        loop
            invariant_except_break
                if_parts(
                    start.chars,
                    feeder@.cursor(),
                    word,
                    script_views(ans.if_elif_scripts@),
                    script_views(ans.then_scripts@),
                ) == if_parts(start.chars, start.cursor(), "if"@, Seq::empty(), Seq::empty()),
                ans.else_script is None,
                word_len <= feeder@.remaining().len(),
                word_len > 0,
                word_len == word.len(),
                keyword_at(feeder@.remaining(), word),
                if_rest(start.chars, feeder@.cursor(), word) == if_end(start.chars, start.cursor()),
            invariant
                views(at_then@) == seq!["then"@],
                views(at_ends@) == seq!["fi"@, "else"@, "elif"@],
                views(at_fi@) == seq!["fi"@],
                start == old(feeder)@,
                start.wf(),
                pos == start.pos,
                limit == start.limit,
                feeder@.follows(start),
                ans.text@ == feeder@.consumed_since(start),
                ans.then_scripts@.len() == ans.if_elif_scripts@.len(),
                ans.redirects@.len() == 0,
                !ans.force_fork,
                *core == *old(core),
            ensures
                ans.if_elif_scripts@.len() > 0,
                crate::feeder::keyword_at(feeder@.remaining(), "fi"@),
                fi_end(start.chars, feeder@.cursor()) == if_end(start.chars, start.cursor()),
                ans.parts(feeder@.cursor()) == if_parts(
                    start.chars,
                    start.cursor(),
                    "if"@,
                    Seq::empty(),
                    Seq::empty(),
                ),
            decreases feeder@.left(),
        {
            let ghost top = feeder@;
            proof {
                reveal(if_rest);
                reveal(if_parts);
                reveal(fi_end);
                reveal(body_end);
            }
            feeder.take_into(&mut ans.text, word_len);
            let ghost a = feeder@;
            assert(behind_keyword(start.chars, top.cursor(), word) == Some(a.cursor()));
            let cond = match Script::parse_until(feeder, core, &at_then) {
                Some(s) => s,
                None => {
                    assert(script_rest(start.chars, a.cursor(), seq!["then"@], 0) is None);
                    assert(body_end(start.chars, a.cursor(), seq!["then"@]) is None);
                    assert(if_rest(start.chars, top.cursor(), word) is None);
                    feeder.reset(pos, limit);
                    return None;
                },
            };
            let ghost b = feeder@;
            assert(body_end(start.chars, a.cursor(), seq!["then"@]) == Some(b.cursor()));
            if !feeder.starts_with_keyword("then") {
                feeder.reset(pos, limit);
                return None;
            }
            proof {
                reveal_strlit("then");
                reveal_strlit("else");
                reveal_strlit("elif");
                reveal_strlit("fi");
            }
            ans.text.append(cond.text.as_str());
            feeder.take_into(&mut ans.text, 4);
            let ghost c = feeder@;
            assert(behind_keyword(start.chars, b.cursor(), "then"@) == Some(c.cursor()));
            let body = match Script::parse_until(feeder, core, &at_ends) {
                Some(s) => s,
                None => {
                    assert(body_end(start.chars, c.cursor(), seq!["fi"@, "else"@, "elif"@]) is None);
                    feeder.reset(pos, limit);
                    return None;
                },
            };
            let ghost d = feeder@;
            assert(body_end(start.chars, c.cursor(), seq!["fi"@, "else"@, "elif"@]) == Some(
                d.cursor(),
            ));
            assert(top.cursor().reaches(d.cursor(), start.chars));
            ans.text.append(body.text.as_str());
            proof {
                lemma_took_twice(start, top, a);
                lemma_took_twice(start, a, b);
                lemma_took_twice(start, b, c);
                lemma_took_twice(start, c, d);
                assert(ans.text@ =~= d.consumed_since(start));
            }
            let ghost conditions = script_views(ans.if_elif_scripts@);
            let ghost branches = script_views(ans.then_scripts@);
            let ghost cond_view = cond@;
            let ghost body_view = body@;
            ans.if_elif_scripts.push(cond);
            ans.then_scripts.push(body);
            assert(script_views(ans.if_elif_scripts@) =~= conditions.push(cond_view));
            assert(script_views(ans.then_scripts@) =~= branches.push(body_view));
            if feeder.starts_with_keyword("else") {
                feeder.take_into(&mut ans.text, 4);
                let ghost e = feeder@;
                assert(behind_keyword(start.chars, d.cursor(), "else"@) == Some(e.cursor()));
                let other = match Script::parse_until(feeder, core, &at_fi) {
                    Some(s) => s,
                    None => {
                        assert(body_end(start.chars, e.cursor(), seq!["fi"@]) is None);
                        feeder.reset(pos, limit);
                        return None;
                    },
                };
                assert(body_end(start.chars, e.cursor(), seq!["fi"@]) == Some(feeder@.cursor()));
                assert(if_rest(start.chars, top.cursor(), word) == fi_end(
                    start.chars,
                    feeder@.cursor(),
                ));
                ans.text.append(other.text.as_str());
                proof {
                    lemma_took_twice(start, d, e);
                    lemma_took_twice(start, e, feeder@);
                    assert(ans.text@ =~= feeder@.consumed_since(start));
                }
                ans.else_script = Some(other);
                if !feeder.starts_with_keyword("fi") {
                    feeder.reset(pos, limit);
                    return None;
                }
                break ;
            }
            assert(behind_keyword(start.chars, d.cursor(), "else"@) is None);
            if feeder.starts_with_keyword("fi") {
                assert(behind_keyword(start.chars, d.cursor(), "fi"@) is Some);
                break ;
            }
            assert(behind_keyword(start.chars, d.cursor(), "fi"@) is None);
            if !feeder.starts_with_keyword("elif") {
                assert(behind_keyword(start.chars, d.cursor(), "elif"@) is None);
                feeder.reset(pos, limit);
                return None;
            }
            assert(behind_keyword(start.chars, d.cursor(), "elif"@) is Some);
            word_len = 4;
            proof {
                word = "elif"@;
            }
        }
        proof {
            reveal_strlit("fi");
        }
        let ghost f = feeder@;
        let ghost parts = ans.parts(f.cursor());
        feeder.take_into(&mut ans.text, 2);
        let ghost g = feeder@;
        assert(redirect_views(ans.redirects@) =~= Seq::<RedirectView>::empty());
        eat_redirects(feeder, core, &mut ans.redirects, &mut ans.text);
        assert(ans.parts(f.cursor()) == parts);
        proof {
            lemma_took_twice(start, f, g);
            lemma_took_twice(start, g, feeder@);
            assert(ans.text@ =~= feeder@.consumed_since(start));
        }
        Some(ans)
    }
}

} // verus!
