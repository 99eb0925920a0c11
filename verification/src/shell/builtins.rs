//! The builtin commands `cd` and `exit`, as far as they are decisions: what
//! directory to change to, what status to exit with. Changing the directory
//! and ending the process are for the caller.

use vstd::prelude::*;
use crate::shell::CoreView;
use crate::shell::ShellCore;
use crate::text::all_digits;
use crate::text::digits_value;
use crate::text::to_chars;
use crate::text::str_is;

verus! {

/// What `cd` is to do.
#[derive(Debug)]
pub enum CdPlan {
    /// Change to this directory.
    ChangeTo(String),
    /// Say this, and return 1.
    Refuse(String),
}

/// The directory that `cd` changes to, or the message with which it refuses:
/// with no argument the home directory, with `-` the directory before the
/// last change where one is known, else the argument. More than one argument
/// is refused, and so is a missing home directory.
pub open spec fn cd_target(args: Seq<Seq<char>>, st: CoreView) -> Result<Seq<char>, Seq<char>> {
    if args.len() == 0 {
        Err("Bug of this shell"@)
    } else if args.len() > 2 {
        Err("bash: cd: too many arguments"@)
    } else if args.len() == 1 {
        match st.stored("HOME"@) {
            Some(home) => Ok(home),
            None => Err("HOME is not defined"@),
        }
    } else if args[1] == "-"@ {
        match st.stored("OLDPWD"@) {
            Some(old) => Ok(old),
            None => Ok(args[1]),
        }
    } else {
        Ok(args[1])
    }
}

/// The first part of `cd`: works out where to change to, and notes the
/// directory in which the shell is, where the caller knows it, as the one
/// before the change.
pub fn cd(core: &mut ShellCore, args: &mut Vec<String>, cwd: Option<&str>) -> (plan: CdPlan)
    ensures
        final(args)@ == old(args)@,
        match cd_target(crate::text::views(old(args)@), old(core)@) {
            Ok(path) => plan matches CdPlan::ChangeTo(p) && p@ == path && final(core)@ == (match cwd {
                Some(dir) => old(core)@.assign("OLDPWD"@, dir@),
                None => old(core)@,
            }),
            Err(m) => plan matches CdPlan::Refuse(msg) && msg@ == m && final(core)@ == old(core)@,
        },
{
    if args.len() == 0 {
        return CdPlan::Refuse(String::from_str("Bug of this shell"));
    }
    if args.len() > 2 {
        return CdPlan::Refuse(String::from_str("bash: cd: too many arguments"));
    }
    let target: String = if args.len() == 1 {
        if !core.is_set("HOME") {
            return CdPlan::Refuse(String::from_str("HOME is not defined"));
        }
        String::from_str(core.get_var_ref("HOME"))
    } else if str_is(args[1].as_str(), "-") && core.is_set("OLDPWD") {
        String::from_str(core.get_var_ref("OLDPWD"))
    } else {
        args[1].clone()
    };
    if let Some(dir) = cwd {
        core.set_var("OLDPWD", dir);
    }
    CdPlan::ChangeTo(target)
}

/// The second part of `cd`, after the caller tried to change the directory:
/// where that went well the full path of the new directory, where the caller
/// knows it, is noted as the working directory, and the status is 0; else it
/// is 1.
pub fn cd_done(core: &mut ShellCore, changed: bool, full: Option<&str>) -> (status: i32)
    ensures
        status == if changed {
            0i32
        } else {
            1i32
        },
        final(core)@ == (match full {
            Some(path) => if changed {
                old(core)@.assign("PWD"@, path@)
            } else {
                old(core)@
            },
            None => old(core)@,
        }),
{
    if changed {
        if let Some(path) = full {
            core.set_var("PWD", path);
        }
        0
    } else {
        1
    }
}

/// The number that a text of an optional sign and one to nine digits denotes.
pub open spec fn small_number(s: Seq<char>) -> Option<int> {
    let signed = s.len() > 0 && (s[0] == '-' || s[0] == '+');
    let body = if signed {
        s.skip(1)
    } else {
        s
    };
    if 0 < body.len() <= 9 && all_digits(body) {
        Some(
            if s[0] == '-' {
                -(digits_value(body) as int)
            } else {
                digits_value(body) as int
            },
        )
    } else {
        None
    }
}

/// The status with which `exit` ends the shell: its argument, or the last
/// exit status where it has none, taken modulo 256; 2 where that is no
/// number.
pub open spec fn exit_status(args: Seq<Seq<char>>, st: CoreView) -> int {
    let text = if args.len() > 1 {
        args[1]
    } else {
        st.value_of("?"@)
    };
    match small_number(text) {
        Some(n) => n % 256,
        None => 2,
    }
}

/// Reads a number of an optional sign and one to nine digits.
pub fn read_small_number(s: &str) -> (r: Option<i32>)
    ensures
        match small_number(s@) {
            Some(n) => r == Some(n as i32) && -1_000_000_000 < n < 1_000_000_000,
            None => r is None,
        },
{
    let v = to_chars(s);
    let signed = v.len() > 0 && (v[0] == '-' || v[0] == '+');
    let start: usize = if signed {
        1
    } else {
        0
    };
    let body = crate::text::substring(&v, start, v.len());
    proof {
        if signed {
            assert(body@ =~= s@.skip(1));
        } else {
            assert(body@ =~= s@);
        }
    }
    match crate::elements::io::redirect::read_fd(body.as_str()) {
        Some(n) => {
            if v[0] == '-' {
                Some(-n)
            } else {
                Some(n)
            }
        },
        None => None,
    }
}

/// The builtin `exit`: notes its argument as the last exit status and gives
/// the status with which the shell is to end, from 0 to 255.
pub fn exit(core: &mut ShellCore, args: &mut Vec<String>) -> (status: i32)
    ensures
        final(args)@ == old(args)@,
        status == exit_status(crate::text::views(old(args)@), old(core)@),
        0 <= status <= 255,
        final(core)@ == (if old(args)@.len() > 1 {
            old(core)@.assign("?"@, old(args)@[1]@)
        } else {
            old(core)@
        }),
{
    let text: String = if args.len() > 1 {
        core.set_var("?", args[1].as_str());
        args[1].clone()
    } else {
        core.get_var("?")
    };
    match read_small_number(text.as_str()) {
        Some(n) => {
            let r = n % 256;
            if r < 0 {
                r + 256
            } else {
                r
            }
        },
        None => 2,
    }
}

} // verus!
