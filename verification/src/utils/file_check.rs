//! The tests on files that conditional expressions make, decided from what
//! the system told about the files. Asking the system is for the caller.

use vstd::prelude::*;
use crate::elements::io::redirect::read_fd;
use crate::elements::io::redirect::written_fd;
use crate::text::str_is;

verus! {

/// A point in time: seconds since the epoch, and nanoseconds within the
/// second.
#[derive(Debug, Clone, Copy, PartialEq, Eq, Structural)]
pub struct Timestamp {
    pub secs: i64,
    pub nanos: u32,
}

impl Timestamp {
    /// Whether this point lies after `other`.
    pub open spec fn later_than(self, other: Timestamp) -> bool {
        self.secs > other.secs || (self.secs == other.secs && self.nanos > other.nanos)
    }

    /// Whether this point lies after `other`.
    pub fn after(&self, other: &Timestamp) -> (b: bool)
        ensures
            b == self.later_than(*other),
    {
        self.secs > other.secs || (self.secs == other.secs && self.nanos > other.nanos)
    }
}

/// What the system knows of a file.
#[derive(Debug, Clone, Copy)]
pub struct FileStat {
    /// Whether it is a regular file, after symbolic links were followed.
    pub is_file: bool,
    /// Whether it is a directory, after symbolic links were followed.
    pub is_dir: bool,
    /// Whether the name itself is a symbolic link.
    pub is_symlink: bool,
    pub is_block_device: bool,
    pub is_char_device: bool,
    pub is_fifo: bool,
    pub is_socket: bool,
    /// Whether the user of the shell may read it.
    pub readable: bool,
    /// Whether the user of the shell may write it.
    pub writable: bool,
    /// Whether the user of the shell may execute it.
    pub executable: bool,
    /// Its size in bytes.
    pub size: u64,
    /// Its permission bits.
    pub mode: u32,
    /// The user that owns it.
    pub uid: u32,
    /// The group that owns it.
    pub gid: u32,
    /// The device on which it lies.
    pub dev: u64,
    /// Its number on that device.
    pub ino: u64,
    /// When it was changed last, where the system tells.
    pub modified: Option<Timestamp>,
    /// When it was read last, where the system tells.
    pub accessed: Option<Timestamp>,
}

/// Whether the file exists: the system knows something about it.
pub fn file_exists(stat: &Option<FileStat>) -> (b: bool)
    ensures
        b == (stat is Some),
{
    stat.is_some()
}

pub fn is_regular_file(stat: &Option<FileStat>) -> (b: bool)
    ensures
        b == (stat matches Some(s) && s.is_file),
{
    match stat {
        Some(s) => s.is_file,
        None => false,
    }
}

pub fn is_dir(stat: &Option<FileStat>) -> (b: bool)
    ensures
        b == (stat matches Some(s) && s.is_dir),
{
    match stat {
        Some(s) => s.is_dir,
        None => false,
    }
}

pub fn is_symlink(stat: &Option<FileStat>) -> (b: bool)
    ensures
        b == (stat matches Some(s) && s.is_symlink),
{
    match stat {
        Some(s) => s.is_symlink,
        None => false,
    }
}

pub fn is_readable(stat: &Option<FileStat>) -> (b: bool)
    ensures
        b == (stat matches Some(s) && s.readable),
{
    match stat {
        Some(s) => s.readable,
        None => false,
    }
}

pub fn is_executable(stat: &Option<FileStat>) -> (b: bool)
    ensures
        b == (stat matches Some(s) && s.executable),
{
    match stat {
        Some(s) => s.executable,
        None => false,
    }
}

pub fn is_writable(stat: &Option<FileStat>) -> (b: bool)
    ensures
        b == (stat matches Some(s) && s.writable),
{
    match stat {
        Some(s) => s.writable,
        None => false,
    }
}

/// The three special permission bits of a mode: set-user-id, set-group-id
/// and sticky, as a number from 0 to 7.
pub open spec fn special_bits(mode: u32) -> int {
    (mode as int / 0o1000) % 8
}

/// What a test with one file says, where `uid` and `gid` are the user and
/// the group of the shell. A file that does not exist passes no test.
pub open spec fn check(stat: Option<FileStat>, tp: Seq<char>, uid: u32, gid: u32) -> bool {
    match stat {
        None => false,
        Some(s) => if tp == "-b"@ {
            s.is_block_device
        } else if tp == "-c"@ {
            s.is_char_device
        } else if tp == "-p"@ {
            s.is_fifo
        } else if tp == "-s"@ {
            s.size > 0
        } else if tp == "-G"@ {
            s.gid == gid
        } else if tp == "-N"@ {
            s.modified matches Some(m) && s.accessed matches Some(a) && m.later_than(a)
        } else if tp == "-O"@ {
            s.uid == uid
        } else if tp == "-S"@ {
            s.is_socket
        } else if tp == "-g"@ {
            (special_bits(s.mode) / 2) % 2 == 1
        } else if tp == "-k"@ {
            special_bits(s.mode) % 2 == 1
        } else if tp == "-u"@ {
            special_bits(s.mode) / 4 == 1
        } else {
            false
        },
    }
}

/// Carries out a test with one file.
pub fn metadata_check(stat: &Option<FileStat>, tp: &str, uid: u32, gid: u32) -> (b: bool)
    ensures
        b == check(*stat, tp@, uid, gid),
{
    let meta = match stat {
        Some(m) => m,
        None => {
            return false;
        },
    };
    if str_is(tp, "-b") {
        return meta.is_block_device;
    }
    if str_is(tp, "-c") {
        return meta.is_char_device;
    }
    if str_is(tp, "-p") {
        return meta.is_fifo;
    }
    if str_is(tp, "-s") {
        return meta.size > 0;
    }
    if str_is(tp, "-G") {
        return meta.gid == gid;
    }
    if str_is(tp, "-N") {
        return match (meta.modified, meta.accessed) {
            (Some(m), Some(a)) => m.after(&a),
            _ => false,
        };
    }
    if str_is(tp, "-O") {
        return meta.uid == uid;
    }
    if str_is(tp, "-S") {
        return meta.is_socket;
    }
    let special_mode: u32 = (meta.mode / 0o1000) % 8;
    if str_is(tp, "-g") {
        (special_mode / 2) % 2 == 1
    } else if str_is(tp, "-k") {
        special_mode % 2 == 1
    } else if str_is(tp, "-u") {
        special_mode / 4 == 1
    } else {
        false
    }
}

/// What a test with two files says: `-ef` whether both are the same file,
/// `-nt` whether the left one was changed later or the right one is missing,
/// `-ot` whether the left one was changed earlier or is missing while the
/// right one exists.
pub open spec fn compare(left: Option<FileStat>, right: Option<FileStat>, tp: Seq<char>) -> bool {
    match (left, right) {
        (None, Some(_)) => tp == "-ot"@,
        (None, None) => false,
        (Some(_), None) => tp == "-nt"@,
        (Some(l), Some(r)) => if tp == "-ef"@ {
            l.dev == r.dev && l.ino == r.ino
        } else if tp == "-nt"@ {
            l.modified matches Some(a) && r.modified matches Some(b) && a.later_than(b)
        } else if tp == "-ot"@ {
            l.modified matches Some(a) && r.modified matches Some(b) && b.later_than(a)
        } else {
            false
        },
    }
}

/// Carries out a test with two files.
pub fn metadata_comp(left: &Option<FileStat>, right: &Option<FileStat>, tp: &str) -> (b: bool)
    ensures
        b == compare(*left, *right, tp@),
{
    let l = match left {
        Some(m) => m,
        None => {
            return right.is_some() && str_is(tp, "-ot");
        },
    };
    let r = match right {
        Some(m) => m,
        None => {
            return str_is(tp, "-nt");
        },
    };
    if str_is(tp, "-ef") {
        l.dev == r.dev && l.ino == r.ino
    } else if str_is(tp, "-nt") {
        match (l.modified, r.modified) {
            (Some(a), Some(b)) => a.after(&b),
            _ => false,
        }
    } else if str_is(tp, "-ot") {
        match (l.modified, r.modified) {
            (Some(a), Some(b)) => b.after(&a),
            _ => false,
        }
    } else {
        false
    }
}

/// The file descriptor that `-t` asks about: the operand where it is a number
/// of at most nine digits. Whether it is a terminal is for the caller to ask.
pub fn is_tty(name: &str) -> (fd: Option<i32>)
    ensures
        fd == written_fd(name@),
{
    read_fd(name)
}

} // verus!
