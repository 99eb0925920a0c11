//! Reading and writing parameters and variables.

use vstd::prelude::*;
use crate::shell::ShellCore;
use crate::shell::CoreView;
use crate::shell::table::VarTable;
use crate::shell::table::lookup;
use crate::shell::table::assign;
use crate::shell::table::lemma_assign;
use crate::text::decimal;
use crate::text::join;
use crate::text::views;
use crate::text::u64_to_string;
use crate::text::join_from;
use crate::text::str_is;
use crate::text::to_chars;

verus! {

/// The value that the innermost frame with an entry for `key` gives it.
pub open spec fn lookup_frames(frames: Seq<Seq<(Seq<char>, Seq<char>)>>, key: Seq<char>) -> Option<
    Seq<char>,
>
    decreases frames.len(),
{
    if frames.len() == 0 {
        None
    } else {
        match lookup(frames.last(), key) {
            Some(v) => Some(v),
            None => lookup_frames(frames.drop_last(), key),
        }
    }
}

/// The innermost frame that has an entry for `key`.
pub open spec fn frame_of(frames: Seq<Seq<(Seq<char>, Seq<char>)>>, key: Seq<char>) -> Option<int>
    decreases frames.len(),
{
    if frames.len() == 0 {
        None
    } else if lookup(frames.last(), key) is Some {
        Some(frames.len() - 1)
    } else {
        frame_of(frames.drop_last(), key)
    }
}

/// The number that a one-digit parameter name stands for.
pub open spec fn position_digit(key: Seq<char>) -> Option<int> {
    if key.len() == 1 && crate::text::digit(key[0]) {
        Some(key[0] as int - '0' as int)
    } else {
        None
    }
}

impl CoreView {
    /// The separator that `$*` puts between the positional parameters: the
    /// first character of `IFS`, a space where `IFS` is not set, nothing where
    /// it is empty.
    pub open spec fn star_separator(&self) -> Seq<char> {
        match self.stored("IFS"@) {
            Some(ifs) => if ifs.len() == 0 {
                Seq::empty()
            } else {
                seq![ifs[0]]
            },
            None => seq![' '],
        }
    }

    /// The positional parameters after the name of the shell.
    pub open spec fn arguments(&self) -> Seq<Seq<char>> {
        if self.params.len() > 0 {
            self.params.skip(1)
        } else {
            Seq::empty()
        }
    }

    /// What a special parameter holds; `None` for a name that is not special.
    pub open spec fn special(&self, key: Seq<char>) -> Option<Seq<char>> {
        if key == seq!['#'] {
            Some(decimal(self.arguments().len() as int))
        } else if key == seq!['@'] {
            Some(join(self.arguments(), seq![' ']))
        } else if key == seq!['*'] {
            Some(join(self.arguments(), self.star_separator()))
        } else if key == "BASH_SUBSHELL"@ {
            Some(decimal(self.subshell_level as int))
        } else {
            match position_digit(key) {
                Some(d) => if d < self.params.len() {
                    Some(self.params[d])
                } else {
                    Some(Seq::empty())
                },
                None => None,
            }
        }
    }

    /// What the tables hold for `key`: the innermost function frame that knows
    /// the name, then the global table, then the environment.
    pub open spec fn stored(&self, key: Seq<char>) -> Option<Seq<char>> {
        match lookup_frames(self.frames, key) {
            Some(v) => Some(v),
            None => match lookup(self.vars, key) {
                Some(v) => Some(v),
                None => lookup(self.environment, key),
            },
        }
    }

    /// The value of a parameter: special parameters first, then the tables;
    /// a name that nothing defines has the empty value.
    pub open spec fn value_of(&self, key: Seq<char>) -> Seq<char> {
        match self.special(key) {
            Some(v) => v,
            None => match self.stored(key) {
                Some(v) => v,
                None => Seq::empty(),
            },
        }
    }
}

impl CoreView {
    /// The state after `key` was given the value `val`: the innermost function
    /// frame that already knows the name takes the value, the global table
    /// where there is no such frame; nothing else changes.
    pub open spec fn assign(self, key: Seq<char>, val: Seq<char>) -> CoreView {
        match frame_of(self.frames, key) {
            Some(f) => CoreView { frames: self.frames.update(f, assign(self.frames[f], key, val)), ..self },
            None => CoreView { vars: assign(self.vars, key, val), ..self },
        }
    }
}

pub proof fn lemma_frame_of(frames: Seq<Seq<(Seq<char>, Seq<char>)>>, key: Seq<char>)
    ensures
        match frame_of(frames, key) {
            Some(f) => 0 <= f < frames.len() && lookup(frames[f], key) is Some && lookup_frames(
                frames,
                key,
            ) == lookup(frames[f], key),
            None => lookup_frames(frames, key) is None,
        },
    decreases frames.len(),
{
    if frames.len() > 0 && lookup(frames.last(), key) is None {
        lemma_frame_of(frames.drop_last(), key);
    }
}

proof fn lemma_frames_update(
    frames: Seq<Seq<(Seq<char>, Seq<char>)>>,
    f: int,
    key: Seq<char>,
    val: Seq<char>,
    other: Seq<char>,
)
    requires
        frame_of(frames, key) == Some(f),
    ensures
        lookup_frames(frames.update(f, assign(frames[f], key, val)), other) == if other == key {
            Some(val)
        } else {
            lookup_frames(frames, other)
        },
    decreases frames.len(),
{
    lemma_frame_of(frames, key);
    let updated = frames.update(f, assign(frames[f], key, val));
    if f == frames.len() - 1 {
        lemma_assign(frames[f], key, val, other);
        assert(updated.drop_last() =~= frames.drop_last());
    } else {
        lemma_frames_update(frames.drop_last(), f, key, val, other);
        assert(updated.drop_last() =~= frames.drop_last().update(
            f,
            assign(frames.drop_last()[f], key, val),
        ));
        assert(updated.last() == frames.last());
    }
}

/// After an assignment the tables hold the new value under the name that was
/// assigned, and under every other name what they held before.
pub proof fn lemma_assign_stored(before: CoreView, key: Seq<char>, val: Seq<char>, other: Seq<char>)
    ensures
        before.assign(key, val).stored(other) == if other == key {
            Some(val)
        } else {
            before.stored(other)
        },
{
    lemma_frame_of(before.frames, key);
    match frame_of(before.frames, key) {
        Some(f) => {
            lemma_frames_update(before.frames, f, key, val, other);
        },
        None => {
            lemma_assign(before.vars, key, val, other);
        },
    }
}

impl ShellCore {
    /// Looks `key` up in the function frames, innermost first.
    fn find_frame(&self, key: &str) -> (r: Option<usize>)
        ensures
            match r {
                Some(f) => frame_of(self@.frames, key@) == Some(f as int),
                None => frame_of(self@.frames, key@) is None,
            },
    {
        let mut i: usize = self.locals.len();
        assert(self@.frames.take(i as int) =~= self@.frames);
        while i > 0
            invariant
                i <= self.locals.len(),
                frame_of(self@.frames, key@) == frame_of(self@.frames.take(i as int), key@),
            decreases i,
        {
            i -= 1;
            let ghost upto = self@.frames.take(i + 1);
            assert(upto.last() == self.locals@[i as int]@);
            assert(upto.drop_last() =~= self@.frames.take(i as int));
            if self.locals[i].get(key).is_some() {
                return Some(i);
            }
        }
        assert(self@.frames.take(0).len() == 0);
        None
    }

    /// What the tables hold for `key`, or the empty string where no table
    /// has the name. Special parameters are not looked at.
    pub fn get_var_ref(&self, key: &str) -> (val: &str)
        ensures
            val@ == match self@.stored(key@) {
                Some(v) => v,
                None => Seq::empty(),
            },
    {
        proof {
            lemma_frame_of(self@.frames, key@);
        }
        if let Some(f) = self.find_frame(key) {
            if let Some(v) = self.locals[f].get(key) {
                return v;
            }
        }
        if let Some(v) = self.vars.get(key) {
            return v;
        }
        if let Some(v) = self.environment.get(key) {
            return v;
        }
        proof {
            reveal_strlit("");
            assert(""@ =~= Seq::<char>::empty());
        }
        ""
    }

    /// Whether a table has an entry for `key`.
    pub fn is_set(&self, key: &str) -> (b: bool)
        ensures
            b == (self@.stored(key@) is Some),
    {
        proof {
            lemma_frame_of(self@.frames, key@);
        }
        self.find_frame(key).is_some() || self.vars.get(key).is_some() || self.environment.get(
            key,
        ).is_some()
    }

    /// Whether `key` names a special parameter.
    pub fn is_special(&self, key: &str) -> (b: bool)
        ensures
            b == (self@.special(key@) is Some),
    {
        let k = to_chars(key);
        if k.len() == 1 {
            let c = k[0];
            assert(key@ =~= seq![c]);
            assert(key@ != "BASH_SUBSHELL"@) by {
                reveal_strlit("BASH_SUBSHELL");
            }
            c == '#' || c == '@' || c == '*' || ('0' <= c && c <= '9')
        } else {
            assert(position_digit(key@) is None);
            str_is(key, "BASH_SUBSHELL")
        }
    }

    /// What `$*` puts between the positional parameters.
    fn star_sep(&self) -> (sep: String)
        ensures
            sep@ == self@.star_separator(),
    {
        proof {
            lemma_frame_of(self@.frames, "IFS"@);
        }
        let found: Option<&str> = if let Some(f) = self.find_frame("IFS") {
            self.locals[f].get("IFS")
        } else if let Some(v) = self.vars.get("IFS") {
            Some(v)
        } else {
            self.environment.get("IFS")
        };
        match found {
            Some(ifs) => {
                let chars = to_chars(ifs);
                let mut sep = String::new();
                if chars.len() > 0 {
                    sep.push(chars[0]);
                    assert(sep@ =~= seq![ifs@[0]]);
                }
                sep
            },
            None => {
                let mut sep = String::new();
                sep.push(' ');
                assert(sep@ =~= seq![' ']);
                sep
            },
        }
    }

    /// The value of the parameter `key`.
    pub fn get_var(&self, key: &str) -> (val: String)
        ensures
            val@ == self@.value_of(key@),
    {
        let k = to_chars(key);
        if k.len() == 1 {
            let c = k[0];
            assert(key@ =~= seq![c]);
            if c == '#' {
                let n: u64 = if self.params.len() > 0 {
                    (self.params.len() - 1) as u64
                } else {
                    0
                };
                return u64_to_string(n);
            }
            if c == '@' {
                let from: usize = if self.params.len() > 0 {
                    1
                } else {
                    0
                };
                proof {
                    reveal_strlit(" ");
                    assert(" "@ =~= seq![' ']);
                    assert(views(self.params@).skip(from as int) =~= self@.arguments());
                }
                return join_from(&self.params, from, " ");
            }
            if c == '*' {
                let from: usize = if self.params.len() > 0 {
                    1
                } else {
                    0
                };
                let sep = self.star_sep();
                assert(views(self.params@).skip(from as int) =~= self@.arguments());
                return join_from(&self.params, from, sep.as_str());
            }
            if '0' <= c && c <= '9' {
                let d: usize = (c as u32 - '0' as u32) as usize;
                assert(key@ != "BASH_SUBSHELL"@) by {
                    reveal_strlit("BASH_SUBSHELL");
                }
                if d < self.params.len() {
                    return self.params[d].clone();
                }
                return String::new();
            }
            assert(position_digit(key@) is None);
            assert(key@ != "BASH_SUBSHELL"@) by {
                reveal_strlit("BASH_SUBSHELL");
            }
        } else {
            assert(position_digit(key@) is None);
            if str_is(key, "BASH_SUBSHELL") {
                return u64_to_string(self.subshell_level);
            }
        }
        assert(self@.special(key@) is None);
        String::from_str(self.get_var_ref(key))
    }

    /// Gives the variable `key` the value `val`.
    pub fn set_var(&mut self, key: &str, val: &str)
        ensures
            final(self)@ == old(self)@.assign(key@, val@),
    {
        match self.find_frame(key) {
            Some(f) => {
                proof {
                    lemma_frame_of(self@.frames, key@);
                }
                let mut frame = VarTable::new();
                std::mem::swap(&mut frame, &mut self.locals[f]);
                frame.set(key, val);
                self.locals[f] = frame;
                assert(self@.frames =~= old(self)@.frames.update(
                    f as int,
                    assign(old(self)@.frames[f as int], key@, val@),
                ));
                assert(self@ == old(self)@.assign(key@, val@));
            },
            None => {
                self.vars.set(key, val);
                assert(self@.frames =~= old(self)@.frames);
                assert(self@ == old(self)@.assign(key@, val@));
            },
        }
    }
}

impl CoreView {
    /// The state with one more function frame, which is empty.
    pub open spec fn with_frame(self) -> CoreView {
        CoreView { frames: self.frames.push(Seq::empty()), ..self }
    }

    /// The state after `key` was given the value `val` in the innermost
    /// function frame, or in the global table where no function runs.
    pub open spec fn assign_local(self, key: Seq<char>, val: Seq<char>) -> CoreView {
        if self.frames.len() == 0 {
            CoreView { vars: assign(self.vars, key, val), ..self }
        } else {
            CoreView {
                frames: self.frames.update(
                    self.frames.len() - 1,
                    assign(self.frames.last(), key, val),
                ),
                ..self
            }
        }
    }

    /// What a child process finds in its environment under `key`: the level
    /// of shells is one more than that of the shell.
    pub open spec fn exported_value(self, key: Seq<char>) -> Seq<char> {
        if key == "SHLVL"@ {
            decimal(
                match crate::shell::builtins::small_number(self.value_of(key)) {
                    Some(n) => n + 1,
                    None => 1,
                },
            )
        } else {
            self.value_of(key)
        }
    }

    /// The names that a child process finds in its environment: those that
    /// are marked for it, in the order in which they were marked, and then the
    /// five that it always finds.
    pub open spec fn exported_names(self) -> Seq<Seq<char>> {
        self.exported + seq!["$"@, "PPID"@, "PWD"@, "OLDPWD"@, "SHLVL"@]
    }
}

/// A local variable is found under its name, whatever stood there before.
pub proof fn lemma_assign_local_stored(before: CoreView, key: Seq<char>, val: Seq<char>)
    ensures
        before.assign_local(key, val).stored(key) == Some(val),
{
    if before.frames.len() == 0 {
        lemma_assign(before.vars, key, val, key);
    } else {
        let after = before.assign_local(key, val);
        lemma_assign(before.frames.last(), key, val, key);
        assert(after.frames.last() == assign(before.frames.last(), key, val));
    }
}

impl ShellCore {
    /// Begins a function call: the function gets a frame for its local
    /// variables.
    pub fn push_frame(&mut self)
        ensures
            final(self)@ == old(self)@.with_frame(),
    {
        self.locals.push(VarTable::new());
        assert(self@.frames =~= old(self)@.frames.push(Seq::empty()));
    }

    /// Ends a function call: its local variables are gone. Where no function
    /// runs nothing happens.
    pub fn pop_frame(&mut self)
        ensures
            final(self)@ == (CoreView {
                frames: if old(self)@.frames.len() > 0 {
                    old(self)@.frames.drop_last()
                } else {
                    old(self)@.frames
                },
                ..old(self)@
            }),
    {
        if self.locals.len() > 0 {
            self.locals.pop();
            assert(self@.frames =~= old(self)@.frames.drop_last());
        } else {
            assert(self@.frames =~= old(self)@.frames);
        }
    }

    /// Gives the variable `key` the value `val` in the function that runs, so
    /// that it is gone when the function ends; in the global table where no
    /// function runs.
    pub fn set_local(&mut self, key: &str, val: &str)
        ensures
            final(self)@ == old(self)@.assign_local(key@, val@),
    {
        if self.locals.len() == 0 {
            self.vars.set(key, val);
            assert(self@.frames =~= old(self)@.frames);
        } else {
            let last = self.locals.len() - 1;
            let mut frame = VarTable::new();
            std::mem::swap(&mut frame, &mut self.locals[last]);
            frame.set(key, val);
            self.locals[last] = frame;
            assert(self@.frames =~= old(self)@.frames.update(
                last as int,
                assign(old(self)@.frames.last(), key@, val@),
            ));
        }
    }

    /// Marks a name for the environment of child processes.
    pub fn export(&mut self, key: &str)
        ensures
            final(self)@ == (CoreView {
                exported: if old(self)@.exported.contains(key@) {
                    old(self)@.exported
                } else {
                    old(self)@.exported.push(key@)
                },
                ..old(self)@
            }),
    {
        let mut i: usize = 0;
        while i < self.exported.len()
            invariant
                i <= self.exported.len(),
                *self == *old(self),
                forall|k: int| 0 <= k < i ==> self@.exported[k] != key@,
            decreases self.exported.len() - i,
        {
            if str_is(self.exported[i].as_str(), key) {
                assert(self@.exported[i as int] == key@);
                return ;
            }
            i += 1;
        }
        self.exported.push(String::from_str(key));
        assert(self@.exported =~= old(self)@.exported.push(key@));
    }

    /// The environment of a child process: each name that a child finds, with
    /// its value.
    pub fn child_environment(&self) -> (env: Vec<(String, String)>)
        ensures
            env@.len() == self@.exported_names().len(),
            forall|i: int|
                0 <= i < env@.len() ==> (#[trigger] env@[i]).0@ == self@.exported_names()[i]
                    && env@[i].1@ == self@.exported_value(self@.exported_names()[i]),
    {
        let mut names: Vec<String> = Vec::new();
        let mut i: usize = 0;
        while i < self.exported.len()
            invariant
                i <= self.exported.len(),
                names@.len() == i,
                forall|k: int| 0 <= k < i ==> (#[trigger] names@[k])@ == self.exported@[k]@,
            decreases self.exported.len() - i,
        {
            names.push(self.exported[i].clone());
            i += 1;
        }
        names.push(String::from_str("$"));
        names.push(String::from_str("PPID"));
        names.push(String::from_str("PWD"));
        names.push(String::from_str("OLDPWD"));
        names.push(String::from_str("SHLVL"));
        assert(views(names@) =~= self@.exported_names());
        let mut env: Vec<(String, String)> = Vec::new();
        let mut k: usize = 0;
        while k < names.len()
            invariant
                k <= names.len(),
                env@.len() == k,
                views(names@) == self@.exported_names(),
                forall|j: int|
                    0 <= j < k ==> (#[trigger] env@[j]).0@ == names@[j]@ && env@[j].1@
                        == self@.exported_value(names@[j]@),
            decreases names.len() - k,
        {
            let name = names[k].clone();
            let value = if str_is(name.as_str(), "SHLVL") {
                let level: i64 = match crate::shell::builtins::read_small_number(
                    self.get_var(name.as_str()).as_str(),
                ) {
                    Some(n) => n as i64 + 1,
                    None => 1,
                };
                crate::text::i64_to_string(level)
            } else {
                self.get_var(name.as_str())
            };
            env.push((name, value));
            k += 1;
        }
        assert forall|i: int| 0 <= i < env@.len() implies (#[trigger] env@[i]).0@
            == self@.exported_names()[i] && env@[i].1@ == self@.exported_value(
            self@.exported_names()[i],
        ) by {
            assert(views(names@)[i] == names@[i]@);
        }
        env
    }
}

} // verus!
