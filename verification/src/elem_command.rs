//! The plainest command: a line cut into arguments at its spaces. Starting
//! the program is for the caller; here it is decided what is started, and
//! what a failure to start it means.

use vstd::prelude::*;
use crate::feeder::Feeder;
use crate::feeder::FeederView;
use crate::feeder::terminal::completion::split_words;
use crate::feeder::terminal::completion::words_of;
use crate::shell::ShellCore;
use crate::text::from_chars;
use crate::text::to_chars;
use crate::text::views;

verus! {

#[derive(Debug)]
pub struct Command {
    /// The line as it was read.
    pub text: String,
    /// The arguments; the first is the name of the command.
    pub args: Vec<String>,
}

/// Why a program could not be started.
#[derive(Debug, Clone, Copy, PartialEq, Eq, Structural)]
pub enum ExecError {
    /// The file is there but may not be executed.
    PermissionDenied,
    /// There is no such file.
    NotFound,
    /// Anything else.
    Other,
}

/// What is to be done with a command.
#[derive(Debug, Clone, Copy, PartialEq, Eq, Structural)]
pub enum ExecPlan {
    /// It is a builtin, which runs inside the shell.
    Builtin,
    /// It is a program, which runs in a child process.
    Fork,
}

/// Whether a character is white space at the end of a line.
pub open spec fn line_space(c: char) -> bool {
    c == ' ' || c == '\t' || c == '\n' || c == '\r'
}

/// A line without the white space at its end.
pub open spec fn trimmed_end(s: Seq<char>) -> Seq<char>
    decreases s.len(),
{
    if s.len() > 0 && line_space(s.last()) {
        trimmed_end(s.drop_last())
    } else {
        s
    }
}

/// The exit status of a child that could not start its program: 126 where
/// the program may not be executed, 127 for anything else.
pub open spec fn failure_status(e: ExecError) -> i32 {
    match e {
        ExecError::PermissionDenied => 126,
        _ => 127,
    }
}

/// What is said where the program `name` could not be started.
pub open spec fn failure_message(e: ExecError, name: Seq<char>) -> Seq<char> {
    match e {
        ExecError::PermissionDenied => "sush: "@ + name + ": Permission denied"@,
        ExecError::NotFound => name + ": command not found"@,
        ExecError::Other => "Failed to execute. "@ + name,
    }
}

impl Command {
    /// What is to be done with the command: a builtin runs inside the shell,
    /// anything else in a child process.
    pub fn exec(&self, core: &ShellCore) -> (plan: ExecPlan)
        requires
            self.args@.len() > 0,
        ensures
            plan == if core@.builtins.contains(self.args@[0]@) {
                ExecPlan::Builtin
            } else {
                ExecPlan::Fork
            },
    {
        if core.is_builtin(self.args[0].as_str()) {
            ExecPlan::Builtin
        } else {
            ExecPlan::Fork
        }
    }

    /// The exit status of the child and what it says, where the program could
    /// not be started.
    pub fn exec_failure(&self, e: ExecError) -> (r: (i32, String))
        requires
            self.args@.len() > 0,
        ensures
            r.0 == failure_status(e),
            r.1@ == failure_message(e, self.args@[0]@),
    {
        let name = self.args[0].as_str();
        match e {
            ExecError::PermissionDenied => {
                let mut msg = String::from_str("sush: ");
                msg.append(name);
                msg.append(": Permission denied");
                (126, msg)
            },
            ExecError::NotFound => {
                let mut msg = String::from_str(name);
                msg.append(": command not found");
                (127, msg)
            },
            ExecError::Other => {
                let mut msg = String::from_str("Failed to execute. ");
                msg.append(name);
                (127, msg)
            },
        }
    }

    /// Takes all that the parser sees as one command: the arguments are the
    /// pieces between the spaces of the line without the white space at its
    /// end.
    pub fn parse(feeder: &mut Feeder, core: &mut ShellCore) -> (r: Option<Command>)
        requires
            old(feeder)@.wf(),
        ensures
            *final(core) == *old(core),
            r matches Some(c) && c.text@ == old(feeder)@.remaining() && views(c.args@) == words_of(
                trimmed_end(old(feeder)@.remaining()),
            ) && c.args@.len() > 0,
            final(feeder)@ == (FeederView { pos: old(feeder)@.limit, ..old(feeder)@ }),
    {
        let n = feeder.len();
        let line = feeder.consume(n);
        assert(line@ =~= old(feeder)@.remaining());
        let v = to_chars(line.as_str());
        let mut end: usize = v.len();
        assert(v@.take(end as int) =~= v@);
        while end > 0 && (v[end - 1] == ' ' || v[end - 1] == '\t' || v[end - 1] == '\n' || v[end
            - 1] == '\r')
            invariant
                end <= v.len(),
                trimmed_end(v@.take(end as int)) == trimmed_end(v@),
            decreases end,
        {
            assert(v@.take(end as int).drop_last() =~= v@.take(end - 1));
            end -= 1;
        }
        let mut kept: Vec<char> = Vec::new();
        let mut i: usize = 0;
        while i < end
            invariant
                i <= end <= v.len(),
                kept@ == v@.take(i as int),
            decreases end - i,
        {
            kept.push(v[i]);
            i += 1;
            assert(kept@ =~= v@.take(i as int));
        }
        let words = split_words(&kept, 0);
        assert(kept@.skip(0) =~= kept@);
        let mut args: Vec<String> = Vec::new();
        let mut k: usize = 0;
        while k < words.len()
            invariant
                k <= words.len(),
                args@.len() == k,
                forall|j: int| 0 <= j < k ==> (#[trigger] args@[j])@ == words@[j]@,
            decreases words.len() - k,
        {
            args.push(from_chars(&words[k]));
            k += 1;
        }
        assert(views(args@) =~= words@.map_values(|w: Vec<char>| w@));
        Some(Command { text: line, args })
    }
}

} // verus!
