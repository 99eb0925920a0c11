//! Pipelines: commands whose outputs and inputs are chained.

use vstd::prelude::*;
use crate::elements::command::command_view;
use crate::elements::command::command_at;
use crate::elements::command::CommandView;
use crate::text::views;
use crate::feeder::keyword_at;
use crate::elements::grammar::slice;
use crate::elements::grammar::skip_to_next;
use crate::elements::grammar::skip_blank;
use crate::elements::grammar::pipe_length;
use crate::elements::grammar::onward;
use crate::elements::grammar::command_end;
use crate::elements::grammar::Cursor;
use crate::elements::command::eat_to_next;
use crate::elements::grammar::ended;
use crate::elements::grammar::skip_negation;
use crate::elements::grammar::pipeline_rest;
use crate::elements::grammar::step;
use crate::elements::grammar::pipeline_end;
use crate::elements::command::Command;
use crate::feeder::Feeder;
use crate::feeder::lemma_took_twice;
use crate::shell::ShellCore;
use crate::shell::CoreView;
use crate::shell::pipeline_status;
use crate::text::decimal;
use crate::text::str_is;

verus! {

#[derive(Debug)]
pub struct Pipeline {
    /// The commands from left to right.
    pub commands: Vec<Command>,
    /// The operators between the commands, `|` or `|&`.
    pub pipes: Vec<String>,
    /// Whether a `!` stands in front, which turns the exit status round.
    pub negated: bool,
    /// The source text.
    pub text: String,
}

/// Where a command of a pipeline reads from and writes to: the pipes are
/// numbered from the left, and `None` leaves the input or the output of the
/// shell in place.
#[derive(Debug, Clone, Copy, PartialEq, Eq, Structural)]
pub struct Wiring {
    /// The pipe that the command reads from.
    pub input: Option<usize>,
    /// The pipe that the command writes to.
    pub output: Option<usize>,
    /// Whether the error output goes to the pipe as well.
    pub with_stderr: bool,
}

/// A pipeline as plain mathematical data: its text, whether a `!` stands in
/// front, its commands, and the operators between them.
pub struct PipelineView {
    pub text: Seq<char>,
    pub negated: bool,
    pub commands: Seq<CommandView>,
    pub pipes: Seq<Seq<char>>,
}

/// The views of a list of commands.
pub open spec fn command_views(v: Seq<Command>) -> Seq<CommandView>
    decreases v,
{
    Seq::new(v.len(), |i: int| if 0 <= i < v.len() { command_view(v[i]) } else { arbitrary() })
}

/// The view of a pipeline.
pub open spec fn pipeline_view(p: Pipeline) -> PipelineView
    decreases p,
{
    PipelineView {
        text: p.text@,
        negated: p.negated,
        commands: command_views(p.commands@),
        pipes: views(p.pipes@),
    }
}

/// The commands of a pipeline that goes on at `c`, and the operators between
/// them, behind the commands `commands` and the operators `pipes`.
#[verifier::opaque]
pub open spec fn pipeline_parts(
    chars: Seq<char>,
    c: Cursor,
    commands: Seq<CommandView>,
    pipes: Seq<Seq<char>>,
) -> (Seq<CommandView>, Seq<Seq<char>>)
    decreases chars.len() - c.pos, chars.len() - c.limit, 8nat, 0nat,
{
    let b = skip_blank(chars, c);
    match step(chars, b, pipe_length(b.sees(chars))) {
        Some(o) => {
            let n = skip_to_next(chars, o);
            if !c.within(chars) || !o.leads(n, chars) {
                (commands, pipes)
            } else {
                match onward(chars, n, command_end(chars, n)) {
                    Some(p) => pipeline_parts(
                        chars,
                        p,
                        commands.push(command_at(chars, n)),
                        pipes.push(slice(chars, b, Some(o))),
                    ),
                    None => (commands, pipes),
                }
            }
        },
        None => (commands, pipes),
    }
}

/// The pipeline at `c`, where one begins there.
#[verifier::opaque]
pub open spec fn pipeline_at(chars: Seq<char>, c: Cursor) -> PipelineView
    decreases chars.len() - c.pos, chars.len() - c.limit, 8nat, 1nat,
{
    let start = skip_negation(chars, c);
    let text = slice(chars, c, pipeline_end(chars, c));
    let negated = keyword_at(c.sees(chars), "!"@);
    if !c.within(chars) {
        PipelineView { text, negated, commands: Seq::empty(), pipes: Seq::empty() }
    } else {
        match onward(chars, start, command_end(chars, start)) {
            Some(p) => {
                let (commands, pipes) = pipeline_parts(
                    chars,
                    p,
                    seq![command_at(chars, start)],
                    Seq::empty(),
                );
                PipelineView { text, negated, commands, pipes }
            },
            None => PipelineView { text, negated, commands: Seq::empty(), pipes: Seq::empty() },
        }
    }
}

impl Pipeline {
    /// How many pipes the pipeline needs: one less than it has commands.
    pub fn pipe_count(&self) -> (n: usize)
        requires
            self.wf(),
        ensures
            n == self.commands@.len() - 1,
    {
        self.commands.len() - 1
    }

    /// Where the command `i` reads from and writes to: from the pipe on its
    /// left and to the pipe on its right, as far as there are such pipes.
    pub fn wiring(&self, i: usize) -> (w: Wiring)
        requires
            self.wf(),
            i < self.commands@.len(),
        ensures
            w.input == if i > 0 {
                Some((i - 1) as usize)
            } else {
                None
            },
            w.output == if i + 1 < self.commands@.len() {
                Some(i)
            } else {
                None
            },
            w.with_stderr == (i + 1 < self.commands@.len() && self.pipes@[i as int]@ == "|&"@),
    {
        let last = i == self.commands.len() - 1;
        Wiring {
            input: if i > 0 {
                Some(i - 1)
            } else {
                None
            },
            output: if last {
                None
            } else {
                Some(i)
            },
            with_stderr: !last && str_is(self.pipes[i].as_str(), "|&"),
        }
    }

    /// Whether the pipeline may run inside the shell, without a new process:
    /// it is a single command that is not sent to the background and not
    /// marked to run in a process of its own, and the command is a compound
    /// one or, as `builtin` tells, a builtin.
    pub fn runs_in_process(&self, background: bool, builtin: bool) -> (b: bool)
        requires
            self.wf(),
        ensures
            b == (self.commands@.len() == 1 && !background && !self.commands@[0].forced() && (
            self.commands@[0].is_compound() || (self.commands@[0] is Simple && builtin))),
    {
        if self.commands.len() != 1 || background {
            return false;
        }
        let c = &self.commands[0];
        if c.force_fork() {
            return false;
        }
        match c {
            crate::elements::command::Command::Simple(_) => builtin,
            crate::elements::command::Command::Paren(_) => false,
            _ => true,
        }
    }

    /// What running the pipeline leaves in the shell once its commands have
    /// run and all of them have been waited for. `statuses` holds the exit
    /// status of each command, left to right: they become the list of
    /// statuses, which so has one entry for each command, and the status of the
    /// pipeline goes to `?`.
    pub fn exec(&self, core: &mut ShellCore, statuses: &Vec<i32>) -> (status: i32)
        requires
            self.wf(),
            statuses@.len() == self.commands@.len(),
        ensures
            final(core)@.pipestatus == statuses@,
            final(core)@.pipestatus.len() == self.commands@.len(),
            status == ({
                let s = pipeline_status(statuses@, old(core).pipefail);
                if self.negated {
                    if s == 0 {
                        1i32
                    } else {
                        0i32
                    }
                } else {
                    s
                }
            }),
            final(core)@ == (CoreView {
                pipestatus: statuses@,
                ..old(core)@.assign("?"@, decimal(status as int))
            }),
    {
        core.set_pipestatus(statuses, self.negated)
    }

    /// A pipeline has a command, and an operator between each two commands.
    pub open spec fn wf(&self) -> bool {
        self.commands@.len() > 0 && self.pipes@.len() + 1 == self.commands@.len()
    }

    /// Takes the pipeline with which the text begins: a `!` or none, then
    /// commands with `|` or `|&` between them. After an operator the next
    /// command may stand on a later line.
    pub fn parse(feeder: &mut Feeder, core: &mut ShellCore) -> (r: Option<Pipeline>)
        requires
            old(feeder)@.wf(),
        ensures
            *final(core) == *old(core),
            pipeline_end(old(feeder)@.chars, old(feeder)@.cursor()) == ended(
                r is Some,
                final(feeder)@,
            ),
            match r {
                Some(p) => final(feeder)@.took(old(feeder)@, p.text@) && p.text@.len() > 0
                    && p.wf() && pipeline_view(p) == pipeline_at(
                    old(feeder)@.chars,
                    old(feeder)@.cursor(),
                ),
                None => final(feeder)@ == old(feeder)@,
            },
        decreases old(feeder)@.left(), old(feeder)@.unfed(), 8nat,
    {
        proof {
            reveal(pipeline_end);
            reveal(pipeline_rest);
            reveal(pipeline_at);
            reveal(pipeline_parts);
        }
        let pos = feeder.pos;
        let limit = feeder.limit;
        let ghost start = feeder@;
        let mut text = String::new();
        let mut negated = false;
        assert(feeder@.consumed_since(start) =~= text@);
        if feeder.starts_with_keyword("!") {
            proof {
                reveal_strlit("!");
            }
            feeder.take_into(&mut text, 1);
            let ghost a = feeder@;
            let n = feeder.scanner_blank(core);
            feeder.take_into(&mut text, n);
            proof {
                lemma_took_twice(start, a, feeder@);
                assert(text@ =~= feeder@.consumed_since(start));
            }
            negated = true;
        }
        let ghost b = feeder@;
        assert(b.cursor() == skip_negation(start.chars, start.cursor()));
        let first = match Command::parse(feeder, core) {
            Some(c) => c,
            None => {
                feeder.reset(pos, limit);
                return None;
            },
        };
        text.append(first.get_text().as_str());
        proof {
            lemma_took_twice(start, b, feeder@);
            assert(text@ =~= feeder@.consumed_since(start));
        }
        let mut commands: Vec<Command> = Vec::new();
        let mut pipes: Vec<String> = Vec::new();
        let ghost first_view = command_view(first);
        commands.push(first);
        assert(command_views(commands@) =~= seq![first_view]);
        assert(views(pipes@) =~= Seq::<Seq<char>>::empty());
        loop
            invariant_except_break
                pipeline_parts(
                    start.chars,
                    feeder@.cursor(),
                    command_views(commands@),
                    views(pipes@),
                ) == (
                    pipeline_at(start.chars, start.cursor()).commands,
                    pipeline_at(start.chars, start.cursor()).pipes,
                ),
                pipeline_rest(start.chars, feeder@.cursor()) == pipeline_end(
                    start.chars,
                    start.cursor(),
                ),
            invariant
                start == old(feeder)@,
                start.wf(),
                pos == start.pos,
                limit == start.limit,
                feeder@.follows(start),
                text@ == feeder@.consumed_since(start),
                text@.len() > 0,
                commands@.len() > 0,
                pipes@.len() + 1 == commands@.len(),
                *core == *old(core),
            ensures
                pipeline_end(start.chars, start.cursor()) == Some(feeder@.cursor()),
                (command_views(commands@), views(pipes@)) == (
                    pipeline_at(start.chars, start.cursor()).commands,
                    pipeline_at(start.chars, start.cursor()).pipes,
                ),
            decreases feeder@.left(),
        {
            let ghost before = feeder@;
            proof {
                reveal(pipeline_rest);
                reveal(pipeline_parts);
                reveal_strlit("||");
                reveal_strlit("|&");
                reveal_strlit("|");
            }
            let at = feeder.pos;
            let at_limit = feeder.limit;
            let mut piece = String::new();
            let n = feeder.scanner_blank(core);
            feeder.take_into(&mut piece, n);
            let ghost c1 = feeder@;
            let len: usize = if feeder.starts_with("||") {
                0
            } else if feeder.starts_with("|&") {
                2
            } else if feeder.starts_with("|") {
                1
            } else {
                0
            };
            if len == 0 {
                feeder.reset(at, at_limit);
                assert(feeder@ == before);
                break ;
            }
            proof {
                reveal_strlit("|&");
                reveal_strlit("|");
            }
            let pipe = feeder.consume(len);
            piece.append(pipe.as_str());
            let ghost c2 = feeder@;
            eat_to_next(feeder, core, &mut piece);
            let ghost c3 = feeder@;
            proof {
                lemma_took_twice(before, c1, c2);
                lemma_took_twice(before, c2, c3);
                assert(piece@ =~= c3.consumed_since(before));
                assert(step(start.chars, c1.cursor(), len as nat) == Some(c2.cursor()));
            }
            match Command::parse(feeder, core) {
                Some(c) => {
                    piece.append(c.get_text().as_str());
                    text.append(piece.as_str());
                    proof {
                        lemma_took_twice(before, c3, feeder@);
                        lemma_took_twice(start, before, feeder@);
                        assert(text@ =~= feeder@.consumed_since(start));
                    }
                    let ghost trees = command_views(commands@);
                    let ghost ops = views(pipes@);
                    let ghost tree = command_view(c);
                    let ghost op = pipe@;
                    commands.push(c);
                    pipes.push(pipe);
                    assert(command_views(commands@) =~= trees.push(tree));
                    assert(views(pipes@) =~= ops.push(op));
                    assert(tree == command_at(start.chars, c3.cursor()));
                    assert(op =~= slice(start.chars, c1.cursor(), Some(c2.cursor())));
                },
                None => {
                    feeder.reset(pos, limit);
                    return None;
                },
            }
        }
        Some(Pipeline { commands, pipes, negated, text })
    }
}

} // verus!
