//! Redirections: how they are written, and what they ask of the file
//! descriptors. The system calls themselves are made by the caller, from the
//! plan that is worked out here.

use vstd::prelude::*;
use crate::elements::grammar::ended;
use crate::elements::grammar::word_at;
use crate::elements::grammar::step;
use crate::elements::grammar::slice;
use crate::elements::grammar::skip_run;
use crate::elements::grammar::skip_blank;
use crate::elements::grammar::Cursor;
use crate::elements::grammar::redirect_end;
use crate::elements::word::Word;
use crate::elements::word::WordView;
use crate::feeder::Feeder;
use crate::feeder::lemma_took_twice;
use crate::feeder::scanner::first_match;
use crate::feeder::scanner::redirect_symbols;
use crate::feeder::scanner::run_length;
use crate::feeder::scanner::CharClass;
use crate::shell::ShellCore;
use crate::text::all_digits;
use crate::text::digits_value;
use crate::text::str_is;
use crate::text::to_chars;

verus! {

#[derive(Debug)]
pub struct Redirect {
    /// The source text.
    pub text: String,
    /// The operator, such as `>` or `<&`.
    pub symbol: String,
    /// The word behind the operator; it is expanded when the command runs.
    pub right: Word,
    /// The file descriptor written in front of the operator, or nothing.
    pub left: String,
    /// The file descriptor that is redirected, once that is known; -1 before.
    pub left_fd: i32,
    /// Where the file descriptor was saved, once it was; -1 before.
    pub left_backup: i32,
}

/// What a redirection asks for.
#[derive(Debug)]
pub enum RedirectAction {
    /// Open the file for reading.
    OpenRead(String),
    /// Create the file, or empty it, and open it for writing.
    OpenWrite(String),
    /// Open the file for writing at its end, creating it where it is missing.
    OpenAppend(String),
    /// Make the file descriptor a copy of another one.
    Duplicate(i32),
    /// Close the file descriptor.
    Close,
    /// Feed the text to the file descriptor.
    HereString(String),
}

/// What is to be done for one redirection: the file descriptor that it
/// changes, whether that one is saved first, whether the error output follows
/// it, and the action.
#[derive(Debug)]
pub struct RedirectPlan {
    pub fd: i32,
    pub save: bool,
    pub with_stderr: bool,
    pub action: RedirectAction,
}

/// The file descriptor that an operator changes where none is written.
pub open spec fn default_fd(symbol: Seq<char>) -> i32 {
    if symbol == "<"@ || symbol == "<&"@ || symbol == "<<"@ || symbol == "<<<"@ {
        0
    } else {
        1
    }
}

/// The number that the digits in front of an operator denote, where it is a
/// file descriptor: at most nine digits.
pub open spec fn written_fd(left: Seq<char>) -> Option<i32> {
    if 0 < left.len() <= 9 && all_digits(left) {
        Some(digits_value(left) as i32)
    } else {
        None
    }
}

/// The file descriptor that a redirection changes.
pub open spec fn target_fd(left: Seq<char>, symbol: Seq<char>) -> Option<i32> {
    if left.len() == 0 {
        Some(default_fd(symbol))
    } else {
        written_fd(left)
    }
}

/// What a redirection with the given operator asks for, where `right` is what
/// the word behind the operator expanded to. Behind `>&` and `<&` stands a
/// file descriptor or `-`; behind `>&` anything else is a file that takes the
/// output and the error output. `None` for a word that cannot stand there.
pub open spec fn action_of(symbol: Seq<char>, right: Seq<char>) -> Option<(RedirectKind, bool)> {
    if symbol == "<"@ {
        Some((RedirectKind::OpenRead, false))
    } else if symbol == ">"@ {
        Some((RedirectKind::OpenWrite, false))
    } else if symbol == ">>"@ {
        Some((RedirectKind::OpenAppend, false))
    } else if symbol == "&>"@ {
        Some((RedirectKind::OpenWrite, true))
    } else if symbol == "&>>"@ {
        Some((RedirectKind::OpenAppend, true))
    } else if symbol == "<<<"@ {
        Some((RedirectKind::HereString, false))
    } else if symbol == ">&"@ || symbol == "<&"@ {
        if right == "-"@ {
            Some((RedirectKind::Close, false))
        } else if written_fd(right) is Some {
            Some((RedirectKind::Duplicate, false))
        } else if symbol == ">&"@ && right.len() > 0 {
            Some((RedirectKind::OpenWrite, true))
        } else {
            None
        }
    } else {
        None
    }
}

/// The kinds of actions, without what they act on.
#[derive(Debug)]
pub enum RedirectKind {
    OpenRead,
    OpenWrite,
    OpenAppend,
    Duplicate,
    Close,
    HereString,
}

impl RedirectAction {
    pub open spec fn kind(self) -> RedirectKind {
        match self {
            RedirectAction::OpenRead(_) => RedirectKind::OpenRead,
            RedirectAction::OpenWrite(_) => RedirectKind::OpenWrite,
            RedirectAction::OpenAppend(_) => RedirectKind::OpenAppend,
            RedirectAction::Duplicate(_) => RedirectKind::Duplicate,
            RedirectAction::Close => RedirectKind::Close,
            RedirectAction::HereString(_) => RedirectKind::HereString,
        }
    }

    /// Whether the action acts on what `right` names.
    pub open spec fn acts_on(self, right: Seq<char>) -> bool {
        match self {
            RedirectAction::OpenRead(p) => p@ == right,
            RedirectAction::OpenWrite(p) => p@ == right,
            RedirectAction::OpenAppend(p) => p@ == right,
            RedirectAction::Duplicate(fd) => written_fd(right) == Some(fd),
            RedirectAction::Close => true,
            RedirectAction::HereString(t) => t@ == right,
        }
    }
}

/// Reads a file descriptor of at most nine digits.
pub fn read_fd(s: &str) -> (r: Option<i32>)
    ensures
        r == written_fd(s@),
        r matches Some(fd) ==> 0 <= fd <= 999_999_999 && fd == digits_value(s@),
{
    let v = to_chars(s);
    if v.len() == 0 || v.len() > 9 {
        return None;
    }
    let mut n: i32 = 0;
    let mut i: usize = 0;
    let mut bound: i32 = 1;
    assert(v@.take(0).len() == 0);
    while i < v.len()
        invariant
            i <= v.len() <= 9,
            v@ == s@,
            all_digits(v@.take(i as int)),
            digits_value(v@.take(i as int)) == n,
            0 <= n < bound,
            bound == crate::elements::word::brace_expansion::ten_to(i as nat),
            bound <= 1_000_000_000,
        decreases v.len() - i,
    {
        let c = v[i];
        let ghost upto = v@.take(i + 1);
        assert(upto.drop_last() =~= v@.take(i as int));
        assert(upto.last() == c);
        if !('0' <= c && c <= '9') {
            assert(!crate::text::digit(v@[i as int]));
            return None;
        }
        proof {
            reveal_with_fuel(crate::elements::word::brace_expansion::ten_to, 11);
            lemma_small_ten(i as nat);
        }
        let d: i32 = (c as u32 - '0' as u32) as i32;
        n = n * 10 + d;
        bound = bound * 10;
        assert forall|k: int| 0 <= k < upto.len() implies crate::text::digit(#[trigger] upto[k]) by {
            if k < i {
                assert(upto[k] == v@.take(i as int)[k]);
            }
        }
        i += 1;
        proof {
            lemma_small_ten(i as nat);
        }
    }
    assert(v@.take(i as int) =~= v@);
    Some(n)
}

proof fn lemma_small_ten(k: nat)
    ensures
        k <= 9 ==> crate::elements::word::brace_expansion::ten_to(k) <= 1_000_000_000,
        k <= 8 ==> crate::elements::word::brace_expansion::ten_to(k) <= 100_000_000,
        k == 9 ==> crate::elements::word::brace_expansion::ten_to(k) == 1_000_000_000,
{
    reveal_with_fuel(crate::elements::word::brace_expansion::ten_to, 11);
    if k <= 9 {
        if k == 0 {
        } else if k == 1 {
        } else if k == 2 {
        } else if k == 3 {
        } else if k == 4 {
        } else if k == 5 {
        } else if k == 6 {
        } else if k == 7 {
        } else if k == 8 {
        } else {
        }
    }
}

/// What follows the digits with which `rem` begins.
pub open spec fn behind_digits(rem: Seq<char>) -> Seq<char> {
    rem.skip(run_length(rem, 0, CharClass::Digit) as int)
}

/// The length of the operator of a redirection at the start of `rem`, behind
/// the digits; 0 where there is none.
pub open spec fn operator_length(rem: Seq<char>) -> nat {
    first_match(behind_digits(rem), redirect_symbols())
}

/// What follows the operator of a redirection and the blanks behind it.
pub open spec fn behind_operator(rem: Seq<char>) -> Seq<char> {
    let rest = behind_digits(rem).skip(operator_length(rem) as int);
    rest.skip(run_length(rest, 0, CharClass::Blank) as int)
}

/// Whether a text begins with something that no word begins with: a `#`, or
/// neither an unquoted nor a single-quoted subword.
pub open spec fn begins_no_word(s: Seq<char>) -> bool {
    "#"@.is_prefix_of(s) || (crate::feeder::scanner::token_length(s) == 0
        && crate::feeder::scanner::single_quoted_length(s) == 0)
}

/// A redirection as plain mathematical data, as the parser leaves it.
pub struct RedirectView {
    pub text: Seq<char>,
    pub left: Seq<char>,
    pub symbol: Seq<char>,
    pub right: WordView,
}

impl View for Redirect {
    type V = RedirectView;

    open spec fn view(&self) -> RedirectView {
        RedirectView {
            text: self.text@,
            left: self.left@,
            symbol: self.symbol@,
            right: self.right@,
        }
    }
}

/// The views of a list of redirections.
pub open spec fn redirect_views(v: Seq<Redirect>) -> Seq<RedirectView> {
    v.map_values(|r: Redirect| r@)
}

/// The redirection at `c`, where one begins there: the digits, the operator,
/// and the word behind the blanks that follow the operator.
pub open spec fn redirect_at(chars: Seq<char>, c: Cursor) -> RedirectView {
    let a = skip_run(chars, c, CharClass::Digit);
    let len = first_match(a.sees(chars), redirect_symbols());
    RedirectView {
        text: slice(chars, c, redirect_end(chars, c)),
        left: slice(chars, c, Some(a)),
        symbol: a.sees(chars).take(len as int),
        right: match step(chars, a, len) {
            Some(o) => word_at(chars, skip_blank(chars, o)),
            None => word_at(chars, a),
        },
    }
}

impl Redirect {
    pub fn new() -> (r: Redirect)
        ensures
            r.text@.len() == 0,
            r.symbol@.len() == 0,
            r.left@.len() == 0,
            r.left_fd == -1,
            r.left_backup == -1,
    {
        Redirect {
            text: String::new(),
            symbol: String::new(),
            right: Word::new(),
            left: String::new(),
            left_fd: -1,
            left_backup: -1,
        }
    }

    /// The text is the file descriptor, the operator, blanks and the word.
    pub open spec fn wf(&self) -> bool {
        &&& self.symbol@.len() > 0
        &&& first_match(self.symbol@, redirect_symbols()) == self.symbol@.len()
        &&& all_digits(self.left@)
        &&& self.right@.wf()
        &&& exists|blanks: Seq<char>|
            self.text@ == self.left@ + self.symbol@ + blanks + self.right@.text && forall|i: int|
                0 <= i < blanks.len() ==> crate::feeder::scanner::blank(#[trigger] blanks[i])
    }

    /// Takes the redirection with which the text begins: digits or none, an
    /// operator, blanks or none, and a word.
    pub fn parse(feeder: &mut Feeder, core: &mut ShellCore) -> (r: Option<Redirect>)
        requires
            old(feeder)@.wf(),
        ensures
            *final(core) == *old(core),
            redirect_end(old(feeder)@.chars, old(feeder)@.cursor()) == ended(
                r is Some,
                final(feeder)@,
            ),
            match r {
                Some(rd) => final(feeder)@.took(old(feeder)@, rd.text@) && rd.text@.len() > 0
                    && rd@ == redirect_at(old(feeder)@.chars, old(feeder)@.cursor())
                    && rd.right@.text.len() > 0
                    && rd.left_fd == -1 && rd.left_backup == -1 && rd.left@ == old(
                    feeder,
                )@.remaining().take(
                    run_length(old(feeder)@.remaining(), 0, CharClass::Digit) as int,
                ) && rd.wf() && operator_length(old(feeder)@.remaining()) > 0 && rd.symbol@.len()
                    == operator_length(old(feeder)@.remaining()),
                None => final(feeder)@ == old(feeder)@ && (operator_length(
                    old(feeder)@.remaining(),
                ) == 0 || begins_no_word(behind_operator(old(feeder)@.remaining()))),
            },
        decreases old(feeder)@.left(), old(feeder)@.unfed(), 4nat,
    {
        proof {
            reveal(redirect_end);
        }
        let pos = feeder.pos;
        let limit = feeder.limit;
        let ghost start = feeder@;
        let mut ans = Redirect::new();
        let n = feeder.scanner_nonnegative_integer(core);
        ans.left = feeder.consume(n);
        let ghost a = feeder@;
        proof {
            crate::feeder::scanner::lemma_run_length(start.remaining(), 0, CharClass::Digit);
        }
        assert(a.remaining() =~= behind_digits(start.remaining()));
        let m = feeder.scanner_redirect_symbol(core);
        if m == 0 {
            feeder.reset(pos, limit);
            return None;
        }
        ans.symbol = feeder.consume(m);
        let ghost b = feeder@;
        assert(ans.symbol@.len() == m);
        assert(m == operator_length(start.remaining()));
        assert(b.remaining() =~= behind_digits(start.remaining()).skip(m as int));
        let k = feeder.scanner_blank(core);
        let blanks = feeder.consume(k);
        let ghost c = feeder@;
        assert(c.remaining() =~= behind_operator(start.remaining()));
        proof {
            crate::feeder::scanner::lemma_run_length(b.remaining(), 0, CharClass::Blank);
        }
        match Word::parse(feeder, core) {
            Some(w) => {
                let mut text = ans.left.clone();
                text.append(ans.symbol.as_str());
                text.append(blanks.as_str());
                text.append(w.text.as_str());
                proof {
                    lemma_took_twice(start, a, b);
                    lemma_took_twice(start, b, c);
                    lemma_took_twice(start, c, feeder@);
                    assert(text@ =~= ans.left@ + ans.symbol@ + blanks@ + w@.text);
                    assert(first_match(ans.symbol@, redirect_symbols()) == ans.symbol@.len()) by {
                        lemma_first_match_self(a.remaining(), redirect_symbols());
                    }
                    assert forall|i: int| 0 <= i < blanks@.len() implies crate::feeder::scanner::blank(
                        #[trigger] blanks@[i],
                    ) by {
                        assert(blanks@[i] == b.remaining()[i]);
                        assert(CharClass::Blank.has(b.remaining()[i]));
                    }
                    assert forall|i: int| 0 <= i < ans.left@.len() implies crate::text::digit(
                        #[trigger] ans.left@[i],
                    ) by {
                        assert(ans.left@[i] == start.remaining()[i]);
                        assert(CharClass::Digit.has(start.remaining()[i]));
                    }
                    assert(text@.len() > 0);
                }
                ans.text = text;
                ans.right = w;
                proof {
                    assert(ans.left@ =~= slice(start.chars, start.cursor(), Some(a.cursor())));
                    assert(ans.symbol@ =~= a.cursor().sees(start.chars).take(m as int));
                    assert(ans.right@ == word_at(start.chars, c.cursor()));
                }
                Some(ans)
            },
            None => {
                feeder.reset(pos, limit);
                None
            },
        }
    }

    /// Works out what the redirection asks for, where `right` is what the word
    /// behind the operator expanded to, and notes the file descriptor that it
    /// changes. `None` where the file descriptor or the word cannot stand where
    /// it stands; nothing is noted then.
    pub fn connect(&mut self, right: &str, restore: bool) -> (r: Option<RedirectPlan>)
        ensures
            final(self).text == old(self).text,
            final(self).symbol == old(self).symbol,
            final(self).left == old(self).left,
            final(self).left_backup == old(self).left_backup,
            match (target_fd(old(self).left@, old(self).symbol@), action_of(old(self).symbol@, right@)) {
                (Some(fd), Some((kind, both))) => r matches Some(p) && p.fd == fd && p.save
                    == restore && p.with_stderr == both && p.action.kind() == kind
                    && p.action.acts_on(right@) && final(self).left_fd == fd,
                _ => r is None && final(self).left_fd == old(self).left_fd,
            },
    {
        let symbol = self.symbol.as_str();
        let input = str_is(symbol, "<") || str_is(symbol, "<&") || str_is(symbol, "<<") || str_is(
            symbol,
            "<<<",
        );
        let fd: i32 = if self.left.as_str().unicode_len() == 0 {
            if input {
                0
            } else {
                1
            }
        } else {
            match read_fd(self.left.as_str()) {
                Some(n) => n,
                None => {
                    return None;
                },
            }
        };
        let path = String::from_str(right);
        let (action, both) = if str_is(symbol, "<") {
            (RedirectAction::OpenRead(path), false)
        } else if str_is(symbol, ">") {
            (RedirectAction::OpenWrite(path), false)
        } else if str_is(symbol, ">>") {
            (RedirectAction::OpenAppend(path), false)
        } else if str_is(symbol, "&>") {
            (RedirectAction::OpenWrite(path), true)
        } else if str_is(symbol, "&>>") {
            (RedirectAction::OpenAppend(path), true)
        } else if str_is(symbol, "<<<") {
            (RedirectAction::HereString(path), false)
        } else if str_is(symbol, ">&") || str_is(symbol, "<&") {
            if str_is(right, "-") {
                (RedirectAction::Close, false)
            } else if let Some(n) = read_fd(right) {
                (RedirectAction::Duplicate(n), false)
            } else if str_is(symbol, ">&") && right.unicode_len() > 0 {
                (RedirectAction::OpenWrite(path), true)
            } else {
                return None;
            }
        } else {
            return None;
        };
        self.left_fd = fd;
        Some(RedirectPlan { fd, save: restore, with_stderr: both, action })
    }

    /// Notes where the file descriptor was saved.
    pub fn saved(&mut self, backup: i32)
        ensures
            *final(self) == (Redirect { left_backup: backup, ..*old(self) }),
    {
        self.left_backup = backup;
    }

    /// What undoes the redirection: the saved file descriptor and the one that
    /// it is to be copied back to. `None` where nothing was saved.
    pub fn restore(&self) -> (r: Option<(i32, i32)>)
        ensures
            r == if self.left_backup >= 0 && self.left_fd >= 0 {
                Some((self.left_backup, self.left_fd))
            } else {
                None
            },
    {
        if self.left_backup >= 0 && self.left_fd >= 0 {
            Some((self.left_backup, self.left_fd))
        } else {
            None
        }
    }
}

/// The entry of a table that was found at the start of a text is found at
/// the start of itself.
pub proof fn lemma_first_match_self(s: Seq<char>, table: Seq<Seq<char>>)
    requires
        first_match(s, table) > 0,
        first_match(s, table) <= s.len(),
    ensures
        first_match(s.take(first_match(s, table) as int), table) == first_match(s, table),
    decreases table.len(),
{
    let n = first_match(s, table);
    let t = s.take(n as int);
    if table.len() > 0 {
        if table[0].is_prefix_of(s) {
            assert(table[0] =~= t);
            assert(t.subrange(0, table[0].len() as int) =~= t);
        } else {
            lemma_first_match_self(s, table.drop_first());
            if table[0].is_prefix_of(t) {
                assert(table[0].len() <= t.len());
                assert(s.subrange(0, table[0].len() as int) =~= t.subrange(0, table[0].len() as int));
            }
        }
    }
}

} // verus!
