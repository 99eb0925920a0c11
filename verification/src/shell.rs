//! The state of the interpreter: variables in scopes, positional parameters,
//! the registry of builtins, the statuses of the last pipeline, and the
//! counters that loops and subshells keep.

pub mod table;
pub mod param_and_var;
pub mod builtins;
pub mod jobs;

use vstd::prelude::*;
use crate::shell::table::VarTable;
use crate::text::views;
use crate::text::decimal;
use crate::text::i64_to_string;
use crate::text::str_is;

verus! {

#[derive(Debug)]
pub struct ShellCore {
    /// The lines that were executed, oldest first.
    pub history: Vec<String>,
    /// The global variables; the last exit status is kept here under `?`.
    pub vars: VarTable,
    /// One table for each function call that is running, innermost last.
    pub locals: Vec<VarTable>,
    /// The environment as it was read at startup.
    pub environment: VarTable,
    /// The names that are handed on to child processes.
    pub exported: Vec<String>,
    /// The positional parameters; the first one is the name of the shell or script.
    pub params: Vec<String>,
    /// The names of the builtin commands.
    pub builtins: Vec<String>,
    /// The exit statuses of the commands of the last pipeline, left to right.
    pub pipestatus: Vec<i32>,
    /// How many subshells lie between the first shell and this one.
    pub subshell_level: u64,
    /// How many loops are running around the current command.
    pub loop_level: u64,
    /// How many enclosing loops a `break` still has to leave.
    pub break_counter: u64,
    /// Set when an interrupt arrived; loops look at it before each round.
    pub sigint: bool,
    /// With it a pipeline fails when any of its commands fails.
    pub pipefail: bool,
    /// With it a pattern that matches no file gives no argument, where it
    /// otherwise stands for itself.
    pub nullglob: bool,
    /// The pipelines that run in the background or were stopped.
    pub jobs: crate::shell::jobs::JobTable,
}

/// The state of the interpreter as plain mathematical data: every string is
/// its sequence of characters, every table its sequence of pairs.
pub struct CoreView {
    pub history: Seq<Seq<char>>,
    pub vars: Seq<(Seq<char>, Seq<char>)>,
    pub frames: Seq<Seq<(Seq<char>, Seq<char>)>>,
    pub environment: Seq<(Seq<char>, Seq<char>)>,
    pub exported: Seq<Seq<char>>,
    pub params: Seq<Seq<char>>,
    pub builtins: Seq<Seq<char>>,
    pub pipestatus: Seq<i32>,
    pub subshell_level: u64,
    pub loop_level: u64,
    pub break_counter: u64,
    pub sigint: bool,
    pub pipefail: bool,
    pub nullglob: bool,
    pub jobs: crate::shell::jobs::TableView,
}

impl View for ShellCore {
    type V = CoreView;

    open spec fn view(&self) -> CoreView {
        CoreView {
            history: views(self.history@),
            vars: self.vars@,
            frames: self.locals@.map_values(|t: VarTable| t@),
            environment: self.environment@,
            exported: views(self.exported@),
            params: views(self.params@),
            builtins: views(self.builtins@),
            pipestatus: self.pipestatus@,
            subshell_level: self.subshell_level,
            loop_level: self.loop_level,
            break_counter: self.break_counter,
            sigint: self.sigint,
            pipefail: self.pipefail,
            nullglob: self.nullglob,
            jobs: self.jobs@,
        }
    }
}

impl ShellCore {

    /// A shell at startup: no history, no positional parameters, the builtins
    /// `cd` and `exit`, and the exit status 0.
    pub fn new() -> (core: ShellCore)
        ensures
            core@ == (CoreView {
                history: Seq::empty(),
                vars: seq![("?"@, "0"@)],
                frames: Seq::empty(),
                environment: Seq::empty(),
                exported: Seq::empty(),
                params: Seq::empty(),
                builtins: seq!["cd"@, "exit"@],
                pipestatus: Seq::empty(),
                subshell_level: 0,
                loop_level: 0,
                break_counter: 0,
                sigint: false,
                pipefail: false,
                nullglob: false,
                jobs: crate::shell::jobs::TableView { entries: Seq::empty(), next_id: 1 },
            }),
    {
        let mut core = ShellCore {
            history: Vec::new(),
            vars: VarTable::new(),
            locals: Vec::new(),
            environment: VarTable::new(),
            exported: Vec::new(),
            params: Vec::new(),
            builtins: Vec::new(),
            pipestatus: Vec::new(),
            subshell_level: 0,
            loop_level: 0,
            break_counter: 0,
            sigint: false,
            pipefail: false,
            nullglob: false,
            jobs: crate::shell::jobs::JobTable::new(),
        };
        core.builtins.push(String::from_str("cd"));
        core.builtins.push(String::from_str("exit"));
        core.vars.set("?", "0");
        assert(core@.builtins =~= seq!["cd"@, "exit"@]);
        assert(core@.frames =~= Seq::empty());
        assert(core@.vars =~= seq![("?"@, "0"@)]);
        assert(core@.history =~= Seq::empty());
        assert(core@.exported =~= Seq::empty());
        assert(core@.params =~= Seq::empty());
        assert(core@.jobs.entries =~= Seq::empty());
        core
    }
}

/// How a child process ended, as the wait call of the system told it.
#[derive(Debug, Clone, Copy, PartialEq, Eq, Structural)]
pub enum WaitOutcome {
    /// It exited with this status.
    Exited(i32),
    /// It was killed by the signal with this number.
    Signaled(i32),
    /// It was stopped.
    Stopped,
    /// Anything else.
    Other,
}

/// The number of the interrupt signal.
pub const SIGINT: i32 = 2;

/// The exit status that stands for the way a child ended: its own status,
/// 128 more than the number of the signal that killed it, 1 for anything
/// else. A signal number that is none counts as 127.
pub open spec fn exit_status_of(outcome: WaitOutcome) -> i32 {
    match outcome {
        WaitOutcome::Exited(status) => status,
        WaitOutcome::Signaled(signal) => if 0 <= signal <= 127 {
            (128 + signal) as i32
        } else {
            255
        },
        _ => 1,
    }
}

/// The exit status of a pipeline whose commands ended with `statuses`: that
/// of the last command, or with `pipefail` the last one that is not 0, and 0
/// where all are 0. No command at all gives 0.
pub open spec fn pipeline_status(statuses: Seq<i32>, pipefail: bool) -> i32
    decreases statuses.len(),
{
    if statuses.len() == 0 {
        0
    } else if !pipefail || statuses.last() != 0 {
        statuses.last()
    } else {
        pipeline_status(statuses.drop_last(), pipefail)
    }
}

/// The exit status of a pipeline whose commands ended with `statuses`.
pub fn last_status(statuses: &Vec<i32>, pipefail: bool) -> (status: i32)
    ensures
        status == pipeline_status(statuses@, pipefail),
{
    let mut i: usize = statuses.len();
    assert(statuses@.take(i as int) =~= statuses@);
    while i > 0
        invariant
            i <= statuses.len(),
            pipeline_status(statuses@, pipefail) == pipeline_status(statuses@.take(i as int), pipefail),
        decreases i,
    {
        let ghost upto = statuses@.take(i as int);
        assert(upto.last() == statuses@[i - 1]);
        assert(upto.drop_last() =~= statuses@.take(i - 1));
        if !pipefail || statuses[i - 1] != 0 {
            return statuses[i - 1];
        }
        i -= 1;
    }
    0
}

impl ShellCore {
    /// Whether `name` is the name of a builtin command.
    pub fn is_builtin(&self, name: &str) -> (b: bool)
        ensures
            b == self@.builtins.contains(name@),
    {
        let mut i: usize = 0;
        while i < self.builtins.len()
            invariant
                i <= self.builtins.len(),
                forall|k: int| 0 <= k < i ==> self@.builtins[k] != name@,
            decreases self.builtins.len() - i,
        {
            if str_is(self.builtins[i].as_str(), name) {
                assert(self@.builtins[i as int] == name@);
                return true;
            }
            i += 1;
        }
        false
    }

    /// Notes that the builtin command `args[0]` has run and returned `status`.
    /// Gives `false`, and notes nothing, where `args[0]` is no builtin.
    pub fn run_builtin(&mut self, args: &mut Vec<String>, status: i32) -> (ran: bool)
        requires
            old(args)@.len() > 0,
        ensures
            final(args)@ == old(args)@,
            ran == old(self)@.builtins.contains(old(args)@[0]@),
            final(self)@ == if ran {
                old(self)@.assign("?"@, decimal(status as int))
            } else {
                old(self)@
            },
    {
        if !self.is_builtin(args[0].as_str()) {
            return false;
        }
        self.set_var("?", i64_to_string(status as i64).as_str());
        true
    }

    /// Notes how a child process ended: the exit status goes to `?`, and an
    /// end by the interrupt signal sets the interrupt flag. The result is the
    /// exit status.
    pub fn wait_process(&mut self, outcome: WaitOutcome) -> (status: i32)
        ensures
            status == exit_status_of(outcome),
            final(self)@ == (CoreView {
                sigint: old(self).sigint || status == 128 + SIGINT,
                ..old(self)@.assign("?"@, decimal(status as int))
            }),
    {
        let status: i32 = match outcome {
            WaitOutcome::Exited(status) => status,
            WaitOutcome::Signaled(signal) => {
                if 0 <= signal && signal <= 127 {
                    128 + signal
                } else {
                    255
                }
            },
            _ => 1,
        };
        self.set_var("?", i64_to_string(status as i64).as_str());
        if status == 128 + SIGINT {
            self.sigint = true;
        }
        status
    }

    /// Notes the exit statuses of the commands of a pipeline, left to right:
    /// all of them go to the list of statuses, and the status of the pipeline
    /// to `?`, turned round where `negated` holds. The result is the status of
    /// the pipeline.
    pub fn set_pipestatus(&mut self, statuses: &Vec<i32>, negated: bool) -> (status: i32)
        ensures
            status == ({
                let s = pipeline_status(statuses@, old(self).pipefail);
                if negated {
                    if s == 0 {
                        1i32
                    } else {
                        0i32
                    }
                } else {
                    s
                }
            }),
            final(self)@ == (CoreView {
                pipestatus: statuses@,
                ..old(self)@.assign("?"@, decimal(status as int))
            }),
            final(self)@.pipestatus.len() == statuses@.len(),
    {
        let mut status: i32 = last_status(statuses, self.pipefail);
        if negated {
            status = if status == 0 {
                1
            } else {
                0
            };
        }
        self.pipestatus = statuses.clone();
        self.set_var("?", i64_to_string(status as i64).as_str());
        status
    }

    /// Notes a line that was run as the latest of the history.
    pub fn add_history(&mut self, line: &str)
        ensures
            final(self)@ == (CoreView { history: old(self)@.history.push(line@), ..old(self)@ }),
    {
        self.history.push(String::from_str(line));
        assert(self@.history =~= old(self)@.history.push(line@));
    }

    /// The lines of the history that are kept where at most `size` lines are:
    /// the latest ones.
    pub fn history_tail(&self, size: usize) -> (lines: Vec<String>)
        ensures
            views(lines@) == if self@.history.len() > size {
                self@.history.skip(self@.history.len() - size)
            } else {
                self@.history
            },
    {
        let from: usize = if self.history.len() > size {
            self.history.len() - size
        } else {
            0
        };
        let mut lines: Vec<String> = Vec::new();
        let mut i: usize = from;
        while i < self.history.len()
            invariant
                from <= i <= self.history.len(),
                lines@.len() == i - from,
                forall|k: int| 0 <= k < i - from ==> (#[trigger] lines@[k])@ == self.history@[from + k]@,
            decreases self.history.len() - i,
        {
            lines.push(self.history[i].clone());
            i += 1;
        }
        assert(views(lines@) =~= self@.history.skip(from as int));
        assert(self@.history.skip(0) =~= self@.history);
        lines
    }

    /// Turns the shell into its own subshell: one more level of subshells lies
    /// above it, and it has no jobs. At the largest level that can be counted
    /// it stays there.
    pub fn enter_subshell(&mut self)
        ensures
            final(self)@ == old(self)@.in_subshell(),
            old(self).subshell_level < u64::MAX ==> final(self).subshell_level == old(
                self,
            ).subshell_level + 1,
            final(self)@.jobs.entries.len() == 0,
    {
        if self.subshell_level < u64::MAX {
            self.subshell_level += 1;
        }
        self.jobs.entries = Vec::new();
        assert(self@.jobs.entries =~= Seq::empty());
    }
}

impl CoreView {
    /// The state of a subshell of the shell in this state: one level deeper,
    /// as far as levels can be counted, and without jobs.
    pub open spec fn in_subshell(self) -> CoreView {
        CoreView {
            subshell_level: if self.subshell_level < u64::MAX {
                (self.subshell_level + 1) as u64
            } else {
                u64::MAX
            },
            jobs: crate::shell::jobs::TableView { entries: Seq::empty(), ..self.jobs },
            ..self
        }
    }
}

/// In a subshell of a shell at level `d` the parameter `BASH_SUBSHELL` holds
/// `d + 1`, and the subshell has no jobs; everything else is as in the shell.
pub proof fn lemma_subshell_step(st: CoreView)
    requires
        st.subshell_level < u64::MAX,
    ensures
        st.in_subshell().subshell_level == st.subshell_level + 1,
        st.in_subshell().value_of("BASH_SUBSHELL"@) == decimal(st.subshell_level + 1),
        st.in_subshell().jobs.entries.len() == 0,
        st.in_subshell() == (CoreView {
            subshell_level: st.in_subshell().subshell_level,
            jobs: st.in_subshell().jobs,
            ..st
        }),
{
    reveal_strlit("BASH_SUBSHELL");
    assert("BASH_SUBSHELL"@.len() == 13);
}

/// The state after `depth` subshells were entered, one inside the other.
pub open spec fn nested(st: CoreView, depth: nat) -> CoreView
    decreases depth,
{
    if depth == 0 {
        st
    } else {
        nested(st, (depth - 1) as nat).in_subshell()
    }
}

/// In a subshell that lies `depth` subshells below a shell at level 0 the
/// parameter `BASH_SUBSHELL` holds `depth`, as far as the level can be counted.
pub proof fn lemma_subshell_depth(st: CoreView, depth: nat)
    requires
        st.subshell_level == 0,
        depth <= u64::MAX,
    ensures
        nested(st, depth).subshell_level == depth,
        nested(st, depth).value_of("BASH_SUBSHELL"@) == decimal(depth as int),
    decreases depth,
{
    reveal_strlit("BASH_SUBSHELL");
    assert("BASH_SUBSHELL"@.len() == 13);
    if depth > 0 {
        lemma_subshell_depth(st, (depth - 1) as nat);
    }
}

} // verus!
