//! Conditional expressions, as they stand between `[[` and `]]`: tests on
//! texts, numbers and files, joined by `!`, `&&`, `||` and parentheses. What
//! the system knows of the files is handed in by the caller.

use vstd::prelude::*;
use crate::feeder::scanner::test_unary_operators;
use crate::feeder::scanner::test_binary_operators;
use crate::feeder::scanner::keyword_match;
use crate::feeder::scanner::CharClass;
use crate::elements::grammar::word_end;
use crate::elements::grammar::word_at;
use crate::elements::grammar::skip_run;
use crate::elements::grammar::onward;
use crate::elements::grammar::fed;
use crate::elements::grammar::behind_keyword;
use crate::elements::grammar::behind;
use crate::elements::grammar::Cursor;
use crate::elements::grammar::cond_rest;
use crate::elements::grammar::ended;
use crate::elements::grammar::test_operator;
use crate::elements::expr::arithmetic::integer::integer_value;
use crate::elements::io::redirect::written_fd;
use crate::elements::word::Word;
use crate::elements::word::WordView;
use crate::elements::word::expansion::word_value;
use crate::feeder::Feeder;
use crate::feeder::keyword_at;
use crate::feeder::lemma_took_twice;
use crate::shell::CoreView;
use crate::shell::ShellCore;
use crate::text::str_is;
use crate::text::to_chars;
use crate::text::views;
use crate::utils::file_check::FileStat;
use crate::utils::file_check::check;
use crate::utils::file_check::compare;
use crate::utils::glob::glob_matches;
use crate::utils::glob::text_le;

verus! {

#[derive(Debug)]
pub enum CondElem {
    /// A test on one operand, such as `-f` or `-z`.
    UnaryOp(String),
    /// A test on two operands, such as `==` or `-lt`.
    BinaryOp(String),
    /// An operand as it is written.
    Word(Word),
    /// An operand after its expansion.
    Operand(String),
    Not,
    And,
    Or,
    LeftParen,
    RightParen,
}

/// A token as plain mathematical data.
pub enum CondView {
    UnaryOp(Seq<char>),
    BinaryOp(Seq<char>),
    Word(WordView),
    Operand(Seq<char>),
    Not,
    And,
    Or,
    LeftParen,
    RightParen,
}

impl View for CondElem {
    type V = CondView;

    open spec fn view(&self) -> CondView {
        match self {
            CondElem::UnaryOp(s) => CondView::UnaryOp(s@),
            CondElem::BinaryOp(s) => CondView::BinaryOp(s@),
            CondElem::Word(w) => CondView::Word(w@),
            CondElem::Operand(s) => CondView::Operand(s@),
            CondElem::Not => CondView::Not,
            CondElem::And => CondView::And,
            CondElem::Or => CondView::Or,
            CondElem::LeftParen => CondView::LeftParen,
            CondElem::RightParen => CondView::RightParen,
        }
    }
}

/// The views of a list of tokens.
pub open spec fn cond_views(v: Seq<CondElem>) -> Seq<CondView> {
    v.map_values(|e: CondElem| e@)
}

/// The token of a conditional expression at `c` that is no word, where
/// `operand` tells whether an operand stands before it.
pub open spec fn test_operator_at(chars: Seq<char>, c: Cursor, operand: bool) -> CondView {
    let s = c.sees(chars);
    if behind(chars, c, "&&"@) is Some {
        CondView::And
    } else if behind(chars, c, "||"@) is Some {
        CondView::Or
    } else if behind(chars, c, "("@) is Some {
        CondView::LeftParen
    } else if behind(chars, c, ")"@) is Some {
        CondView::RightParen
    } else if !operand {
        if behind_keyword(chars, c, "!"@) is Some {
            CondView::Not
        } else {
            CondView::UnaryOp(s.take(keyword_match(s, test_unary_operators()) as int))
        }
    } else if keyword_match(s, test_binary_operators()) > 0 {
        CondView::BinaryOp(s.take(keyword_match(s, test_binary_operators()) as int))
    } else {
        CondView::BinaryOp(s.take(1))
    }
}

/// Whether an operand stands last among the tokens.
pub open spec fn word_last(tokens: Seq<CondView>) -> bool {
    tokens.len() > 0 && tokens.last() is Word
}

/// The tokens of a conditional expression that goes on at `c`, behind the
/// tokens `so_far`.
#[verifier::opaque]
pub open spec fn cond_tokens(chars: Seq<char>, c: Cursor, so_far: Seq<CondView>) -> Seq<CondView>
    decreases chars.len() - c.pos, chars.len() - c.limit,
{
    let b = skip_run(chars, c, CharClass::Space);
    if !c.within(chars) || keyword_at(b.sees(chars), "]]"@) {
        so_far
    } else if b.sees(chars).len() == 0 {
        match fed(chars, b) {
            Some(f) => cond_tokens(chars, f, so_far),
            None => so_far,
        }
    } else if test_operator(chars, b, word_last(so_far)) is Some {
        cond_tokens(
            chars,
            test_operator(chars, b, word_last(so_far))->0,
            so_far.push(test_operator_at(chars, b, word_last(so_far))),
        )
    } else {
        match onward(chars, b, word_end(chars, b)) {
            Some(next) => cond_tokens(chars, next, so_far.push(CondView::Word(word_at(chars, b)))),
            None => so_far,
        }
    }
}

#[derive(Debug)]
pub struct ConditionalExpr {
    /// The source text.
    pub text: String,
    /// The tokens in source order.
    pub elements: Vec<CondElem>,
}

/// What the system told about files and terminals.
#[derive(Debug)]
pub struct FileFacts {
    /// The files that exist, by the names that were asked about.
    pub files: Vec<(String, FileStat)>,
    /// The file descriptors that are terminals.
    pub terminals: Vec<i32>,
    /// The user of the shell.
    pub uid: u32,
    /// The group of the shell.
    pub gid: u32,
}

/// The facts as plain mathematical data.
pub struct FactsView {
    pub files: Seq<(Seq<char>, FileStat)>,
    pub terminals: Seq<i32>,
    pub uid: u32,
    pub gid: u32,
}

impl View for FileFacts {
    type V = FactsView;

    open spec fn view(&self) -> FactsView {
        FactsView {
            files: self.files@.map_values(|f: (String, FileStat)| (f.0@, f.1)),
            terminals: self.terminals@,
            uid: self.uid,
            gid: self.gid,
        }
    }
}

/// What is known of the file `path`: the first entry with that name.
pub open spec fn stat_of(files: Seq<(Seq<char>, FileStat)>, path: Seq<char>) -> Option<FileStat>
    decreases files.len(),
{
    if files.len() == 0 {
        None
    } else if files[0].0 == path {
        Some(files[0].1)
    } else {
        stat_of(files.drop_first(), path)
    }
}

/// What a test on one operand says: `-z` and `-n` look at whether the text
/// is empty, `-v` at whether it names a variable that is set, `-t` at
/// whether it names a file descriptor that is a terminal, and the others at
/// the file that it names.
pub open spec fn unary_test(op: Seq<char>, operand: Seq<char>, facts: FactsView, st: CoreView) -> bool {
    let stat = stat_of(facts.files, operand);
    if op == "-z"@ {
        operand.len() == 0
    } else if op == "-n"@ {
        operand.len() > 0
    } else if op == "-v"@ {
        st.stored(operand) is Some
    } else if op == "-a"@ || op == "-e"@ {
        stat is Some
    } else if op == "-f"@ {
        stat matches Some(s) && s.is_file
    } else if op == "-d"@ {
        stat matches Some(s) && s.is_dir
    } else if op == "-h"@ || op == "-L"@ {
        stat matches Some(s) && s.is_symlink
    } else if op == "-r"@ {
        stat matches Some(s) && s.readable
    } else if op == "-w"@ {
        stat matches Some(s) && s.writable
    } else if op == "-x"@ {
        stat matches Some(s) && s.executable
    } else if op == "-t"@ {
        written_fd(operand) matches Some(fd) && facts.terminals.contains(fd)
    } else {
        check(stat, op, facts.uid, facts.gid)
    }
}

/// Whether `op` compares numbers.
pub open spec fn is_numeric(op: Seq<char>) -> bool {
    op == "-eq"@ || op == "-ne"@ || op == "-lt"@ || op == "-le"@ || op == "-gt"@ || op == "-ge"@
}

/// What a comparison of two numbers says.
pub open spec fn numeric_test(op: Seq<char>, a: i64, b: i64) -> bool {
    if op == "-eq"@ {
        a == b
    } else if op == "-ne"@ {
        a != b
    } else if op == "-lt"@ {
        a < b
    } else if op == "-le"@ {
        a <= b
    } else if op == "-gt"@ {
        a > b
    } else {
        a >= b
    }
}

/// What a test on two operands says, or the message of the error. With `=`,
/// `==` and `!=` the right operand is a pattern; `<` and `>` compare in the
/// order of the dictionary; the numeric tests want two integers; `-ef`, `-nt`
/// and `-ot` look at the files that the operands name. Regular expressions
/// are not dealt with.
pub open spec fn binary_test(op: Seq<char>, left: Seq<char>, right: Seq<char>, facts: FactsView) -> Result<
    bool,
    Seq<char>,
> {
    if op == "=="@ || op == "="@ {
        Ok(glob_matches(right, left))
    } else if op == "!="@ {
        Ok(!glob_matches(right, left))
    } else if op == "<"@ {
        Ok(text_le(left, right) && left != right)
    } else if op == ">"@ {
        Ok(text_le(right, left) && left != right)
    } else if is_numeric(op) {
        match (integer_value(left), integer_value(right)) {
            (Some(a), Some(b)) => Ok(numeric_test(op, a, b)),
            (None, _) => Err(left + ": integer expression expected"@),
            (_, None) => Err(right + ": integer expression expected"@),
        }
    } else if op == "-ef"@ || op == "-nt"@ || op == "-ot"@ {
        Ok(compare(stat_of(facts.files, left), stat_of(facts.files, right), op))
    } else if op == "=~"@ {
        Err("regular expressions are not supported"@)
    } else {
        Err(op + ": unknown operator"@)
    }
}

/// The message for tokens that make no expression.
pub open spec fn cond_syntax_error() -> Seq<char> {
    "syntax error in conditional expression"@
}

/// The value of the alternatives that begin at the token `i`, joined by `||`,
/// and the index behind them.
pub open spec fn or_value(e: Seq<CondView>, i: int, facts: FactsView, st: CoreView) -> Result<
    (bool, int),
    Seq<char>,
>
    decreases e.len() - i, 3nat,
{
    match and_value(e, i, facts, st) {
        Err(msg) => Err(msg),
        Ok((a, j)) => if i < j < e.len() && e[j] is Or {
            match or_value(e, j + 1, facts, st) {
                Ok((b, k)) => Ok((a || b, k)),
                Err(msg) => Err(msg),
            }
        } else {
            Ok((a, j))
        },
    }
}

/// The value of the parts that begin at the token `i`, joined by `&&`.
pub open spec fn and_value(e: Seq<CondView>, i: int, facts: FactsView, st: CoreView) -> Result<
    (bool, int),
    Seq<char>,
>
    decreases e.len() - i, 2nat,
{
    match not_value(e, i, facts, st) {
        Err(msg) => Err(msg),
        Ok((a, j)) => if i < j < e.len() && e[j] is And {
            match and_value(e, j + 1, facts, st) {
                Ok((b, k)) => Ok((a && b, k)),
                Err(msg) => Err(msg),
            }
        } else {
            Ok((a, j))
        },
    }
}

/// The value of a test with any number of `!` before it.
pub open spec fn not_value(e: Seq<CondView>, i: int, facts: FactsView, st: CoreView) -> Result<
    (bool, int),
    Seq<char>,
>
    decreases e.len() - i, 1nat,
{
    if 0 <= i < e.len() && e[i] is Not {
        match not_value(e, i + 1, facts, st) {
            Ok((a, j)) => Ok((!a, j)),
            Err(msg) => Err(msg),
        }
    } else {
        primary_value(e, i, facts, st)
    }
}

/// The value of one test: an expression in parentheses, a test on one
/// operand, a test on two operands, or an operand alone, which holds where
/// it is not empty.
pub open spec fn primary_value(e: Seq<CondView>, i: int, facts: FactsView, st: CoreView) -> Result<
    (bool, int),
    Seq<char>,
>
    decreases e.len() - i, 0nat,
{
    if i < 0 || i >= e.len() {
        Err(cond_syntax_error())
    } else {
        match e[i] {
            CondView::LeftParen => match or_value(e, i + 1, facts, st) {
                Err(msg) => Err(msg),
                Ok((a, j)) => if i < j < e.len() && e[j] is RightParen {
                    Ok((a, j + 1))
                } else {
                    Err(cond_syntax_error())
                },
            },
            CondView::UnaryOp(op) => if i + 1 < e.len() && e[i + 1] is Operand {
                Ok((unary_test(op, e[i + 1]->Operand_0, facts, st), i + 2))
            } else {
                Err(cond_syntax_error())
            },
            CondView::Operand(left) => if i + 2 < e.len() && e[i + 1] is BinaryOp && e[i + 2]
                is Operand {
                match binary_test(e[i + 1]->BinaryOp_0, left, e[i + 2]->Operand_0, facts) {
                    Ok(b) => Ok((b, i + 3)),
                    Err(msg) => Err(msg),
                }
            } else if i + 1 < e.len() && e[i + 1] is BinaryOp {
                Err(cond_syntax_error())
            } else {
                Ok((left.len() > 0, i + 1))
            },
            _ => Err(cond_syntax_error()),
        }
    }
}

/// The value of a whole expression whose operands are expanded.
pub open spec fn cond_value(e: Seq<CondView>, facts: FactsView, st: CoreView) -> Result<bool, Seq<char>> {
    match or_value(e, 0, facts, st) {
        Ok((b, j)) => if j == e.len() {
            Ok(b)
        } else {
            Err(cond_syntax_error())
        },
        Err(msg) => Err(msg),
    }
}

/// The texts of the operands among the tokens, in their order.
pub open spec fn operand_texts(e: Seq<CondView>) -> Seq<Seq<char>>
    decreases e.len(),
{
    if e.len() == 0 {
        Seq::empty()
    } else {
        match e.last() {
            CondView::Operand(t) => operand_texts(e.drop_last()).push(t),
            _ => operand_texts(e.drop_last()),
        }
    }
}

/// A token with its word expanded.
pub open spec fn resolved_elem(e: CondView, st: CoreView) -> (Option<CondView>, CoreView) {
    match e {
        CondView::Word(w) => {
            let (value, after) = word_value(w, st);
            match value {
                Some(text) => (Some(CondView::Operand(text)), after),
                None => (None, after),
            }
        },
        _ => (Some(e), st),
    }
}

/// The tokens with their words expanded, from left to right.
pub open spec fn resolved(e: Seq<CondView>, st: CoreView) -> (Option<Seq<CondView>>, CoreView)
    decreases e.len(),
{
    if e.len() == 0 {
        (Some(Seq::empty()), st)
    } else {
        let (front, mid) = resolved(e.drop_last(), st);
        match front {
            Some(done) => {
                let (last, after) = resolved_elem(e.last(), mid);
                match last {
                    Some(x) => (Some(done.push(x)), after),
                    None => (None, after),
                }
            },
            None => (None, mid),
        }
    }
}

proof fn lemma_resolve_fails(e: Seq<CondView>, n: int, st: CoreView)
    requires
        0 <= n <= e.len(),
        resolved(e.take(n), st).0 is None,
    ensures
        resolved(e, st) == resolved(e.take(n), st),
    decreases e.len() - n,
{
    if n < e.len() {
        assert(e.take(n + 1).drop_last() =~= e.take(n));
        lemma_resolve_fails(e, n + 1, st);
    } else {
        assert(e.take(n) =~= e);
    }
}

impl FileFacts {
    /// What is known of the file `path`.
    pub fn stat(&self, path: &str) -> (r: Option<FileStat>)
        ensures
            r == stat_of(self@.files, path@),
    {
        let ghost files = self@.files;
        let mut i: usize = 0;
        proof {
            assert(files.skip(0) =~= files);
        }
        while i < self.files.len()
            invariant
                i <= self.files.len(),
                files == self@.files,
                stat_of(files.skip(i as int), path@) == stat_of(files, path@),
            decreases self.files.len() - i,
        {
            proof {
                assert(files.skip(i as int)[0] == files[i as int]);
                assert(files.skip(i as int).drop_first() =~= files.skip(i + 1));
            }
            if str_is(self.files[i].0.as_str(), path) {
                return Some(self.files[i].1);
            }
            i += 1;
        }
        None
    }

    /// Whether the file descriptor is a terminal.
    pub fn is_terminal(&self, fd: i32) -> (b: bool)
        ensures
            b == self@.terminals.contains(fd),
    {
        let mut i: usize = 0;
        while i < self.terminals.len()
            invariant
                i <= self.terminals.len(),
                forall|k: int| 0 <= k < i ==> self.terminals@[k] != fd,
            decreases self.terminals.len() - i,
        {
            if self.terminals[i] == fd {
                return true;
            }
            i += 1;
        }
        false
    }
}

/// Carries out a test on one operand.
pub fn unary(op: &str, operand: &str, facts: &FileFacts, core: &ShellCore) -> (b: bool)
    ensures
        b == unary_test(op@, operand@, facts@, core@),
{
    let stat = facts.stat(operand);
    if str_is(op, "-z") {
        operand.unicode_len() == 0
    } else if str_is(op, "-n") {
        operand.unicode_len() > 0
    } else if str_is(op, "-v") {
        core.is_set(operand)
    } else if str_is(op, "-a") || str_is(op, "-e") {
        stat.is_some()
    } else if str_is(op, "-f") {
        crate::utils::file_check::is_regular_file(&stat)
    } else if str_is(op, "-d") {
        crate::utils::file_check::is_dir(&stat)
    } else if str_is(op, "-h") || str_is(op, "-L") {
        crate::utils::file_check::is_symlink(&stat)
    } else if str_is(op, "-r") {
        crate::utils::file_check::is_readable(&stat)
    } else if str_is(op, "-w") {
        crate::utils::file_check::is_writable(&stat)
    } else if str_is(op, "-x") {
        crate::utils::file_check::is_executable(&stat)
    } else if str_is(op, "-t") {
        match crate::utils::file_check::is_tty(operand) {
            Some(fd) => facts.is_terminal(fd),
            None => false,
        }
    } else {
        crate::utils::file_check::metadata_check(&stat, op, facts.uid, facts.gid)
    }
}

/// Carries out a test on two operands.
pub fn binary(op: &str, left: &str, right: &str, facts: &FileFacts) -> (r: Result<bool, String>)
    ensures
        match binary_test(op@, left@, right@, facts@) {
            Ok(b) => r == Ok::<bool, String>(b),
            Err(m) => r matches Err(msg) && msg@ == m,
        },
{
    if str_is(op, "==") || str_is(op, "=") {
        return Ok(crate::utils::glob::pattern_matches(right, left));
    }
    if str_is(op, "!=") {
        return Ok(!crate::utils::glob::pattern_matches(right, left));
    }
    if str_is(op, "<") || str_is(op, ">") {
        let l = to_chars(left);
        let r = to_chars(right);
        let same = crate::text::chars_eq(&l, &r);
        return Ok(
            if str_is(op, "<") {
                crate::utils::glob::le(&l, &r) && !same
            } else {
                crate::utils::glob::le(&r, &l) && !same
            },
        );
    }
    let numeric = str_is(op, "-eq") || str_is(op, "-ne") || str_is(op, "-lt") || str_is(op, "-le")
        || str_is(op, "-gt") || str_is(op, "-ge");
    if numeric {
        let a = match crate::elements::expr::arithmetic::integer::parse(left) {
            Some(a) => a,
            None => {
                let mut msg = String::from_str(left);
                msg.append(": integer expression expected");
                return Err(msg);
            },
        };
        let b = match crate::elements::expr::arithmetic::integer::parse(right) {
            Some(b) => b,
            None => {
                let mut msg = String::from_str(right);
                msg.append(": integer expression expected");
                return Err(msg);
            },
        };
        return Ok(
            if str_is(op, "-eq") {
                a == b
            } else if str_is(op, "-ne") {
                a != b
            } else if str_is(op, "-lt") {
                a < b
            } else if str_is(op, "-le") {
                a <= b
            } else if str_is(op, "-gt") {
                a > b
            } else {
                a >= b
            },
        );
    }
    if str_is(op, "-ef") || str_is(op, "-nt") || str_is(op, "-ot") {
        let l = facts.stat(left);
        let r = facts.stat(right);
        return Ok(crate::utils::file_check::metadata_comp(&l, &r, op));
    }
    if str_is(op, "=~") {
        return Err(String::from_str("regular expressions are not supported"));
    }
    let mut msg = String::from_str(op);
    msg.append(": unknown operator");
    Err(msg)
}

/// Whether an executable result says what the model says.
pub open spec fn agrees(r: Result<(bool, usize), String>, s: Result<(bool, int), Seq<char>>) -> bool {
    match s {
        Ok((b, j)) => r matches Ok((x, k)) && x == b && k == j,
        Err(m) => r matches Err(msg) && msg@ == m,
    }
}

fn eval_or(e: &Vec<CondElem>, i: usize, facts: &FileFacts, core: &ShellCore) -> (r: Result<
    (bool, usize),
    String,
>)
    requires
        i <= e@.len(),
    ensures
        agrees(r, or_value(cond_views(e@), i as int, facts@, core@)),
        r matches Ok((_, k)) ==> k <= e@.len(),
    decreases e@.len() - i, 3nat,
{
    let (a, j) = match eval_and(e, i, facts, core) {
        Ok(x) => x,
        Err(msg) => {
            return Err(msg);
        },
    };
    if i < j && j < e.len() {
        if let CondElem::Or = &e[j] {
            return match eval_or(e, j + 1, facts, core) {
                Ok((b, k)) => Ok((a || b, k)),
                Err(msg) => Err(msg),
            };
        }
    }
    Ok((a, j))
}

fn eval_and(e: &Vec<CondElem>, i: usize, facts: &FileFacts, core: &ShellCore) -> (r: Result<
    (bool, usize),
    String,
>)
    requires
        i <= e@.len(),
    ensures
        agrees(r, and_value(cond_views(e@), i as int, facts@, core@)),
        r matches Ok((_, k)) ==> k <= e@.len(),
    decreases e@.len() - i, 2nat,
{
    let (a, j) = match eval_not(e, i, facts, core) {
        Ok(x) => x,
        Err(msg) => {
            return Err(msg);
        },
    };
    if i < j && j < e.len() {
        if let CondElem::And = &e[j] {
            return match eval_and(e, j + 1, facts, core) {
                Ok((b, k)) => Ok((a && b, k)),
                Err(msg) => Err(msg),
            };
        }
    }
    Ok((a, j))
}

fn eval_not(e: &Vec<CondElem>, i: usize, facts: &FileFacts, core: &ShellCore) -> (r: Result<
    (bool, usize),
    String,
>)
    requires
        i <= e@.len(),
    ensures
        agrees(r, not_value(cond_views(e@), i as int, facts@, core@)),
        r matches Ok((_, k)) ==> k <= e@.len(),
    decreases e@.len() - i, 1nat,
{
    if i < e.len() {
        if let CondElem::Not = &e[i] {
            return match eval_not(e, i + 1, facts, core) {
                Ok((a, j)) => Ok((!a, j)),
                Err(msg) => Err(msg),
            };
        }
    }
    eval_primary(e, i, facts, core)
}

fn eval_primary(e: &Vec<CondElem>, i: usize, facts: &FileFacts, core: &ShellCore) -> (r: Result<
    (bool, usize),
    String,
>)
    requires
        i <= e@.len(),
    ensures
        agrees(r, primary_value(cond_views(e@), i as int, facts@, core@)),
        r matches Ok((_, k)) ==> k <= e@.len(),
    decreases e@.len() - i, 0nat,
{
    if i >= e.len() {
        return Err(String::from_str("syntax error in conditional expression"));
    }
    match &e[i] {
        CondElem::LeftParen => {
            let (a, j) = match eval_or(e, i + 1, facts, core) {
                Ok(x) => x,
                Err(msg) => {
                    return Err(msg);
                },
            };
            if i < j && j < e.len() {
                if let CondElem::RightParen = &e[j] {
                    return Ok((a, j + 1));
                }
            }
            Err(String::from_str("syntax error in conditional expression"))
        },
        CondElem::UnaryOp(op) => {
            if e.len() - i > 1 {
                if let CondElem::Operand(x) = &e[i + 1] {
                    return Ok((unary(op.as_str(), x.as_str(), facts, core), i + 2));
                }
            }
            Err(String::from_str("syntax error in conditional expression"))
        },
        CondElem::Operand(left) => {
            if e.len() - i > 1 {
                if let CondElem::BinaryOp(op) = &e[i + 1] {
                    if e.len() - i > 2 {
                        if let CondElem::Operand(right) = &e[i + 2] {
                            return match binary(op.as_str(), left.as_str(), right.as_str(), facts) {
                                Ok(b) => Ok((b, i + 3)),
                                Err(msg) => Err(msg),
                            };
                        }
                    }
                    return Err(String::from_str("syntax error in conditional expression"));
                }
            }
            Ok((left.as_str().unicode_len() > 0, i + 1))
        },
        _ => Err(String::from_str("syntax error in conditional expression")),
    }
}

/// Evaluates tokens whose operands are expanded.
pub fn evaluate(e: &Vec<CondElem>, facts: &FileFacts, core: &ShellCore) -> (r: Result<bool, String>)
    ensures
        match cond_value(cond_views(e@), facts@, core@) {
            Ok(b) => r == Ok::<bool, String>(b),
            Err(m) => r matches Err(msg) && msg@ == m,
        },
{
    match eval_or(e, 0, facts, core) {
        Ok((b, j)) => {
            if j == e.len() {
                Ok(b)
            } else {
                Err(String::from_str("syntax error in conditional expression"))
            }
        },
        Err(msg) => Err(msg),
    }
}

impl ConditionalExpr {
    pub fn new() -> (c: ConditionalExpr)
        ensures
            c.text@.len() == 0,
            c.elements@.len() == 0,
    {
        ConditionalExpr { text: String::new(), elements: Vec::new() }
    }

    /// Expands the operands, from left to right. `None` where the expansion
    /// of one of them fails.
    pub fn resolve(&self, core: &mut ShellCore) -> (r: Option<Vec<CondElem>>)
        ensures
            final(core)@ == resolved(cond_views(self.elements@), old(core)@).1,
            match resolved(cond_views(self.elements@), old(core)@).0 {
                Some(done) => r matches Some(out) && cond_views(out@) == done,
                None => r is None,
            },
    {
        let mut out: Vec<CondElem> = Vec::new();
        let ghost e = cond_views(self.elements@);
        let ghost start = old(core)@;
        let mut i: usize = 0;
        assert(e.take(0) =~= Seq::<CondView>::empty());
        assert(cond_views(out@) =~= Seq::<CondView>::empty());
        while i < self.elements.len()
            invariant
                i <= self.elements.len(),
                e == cond_views(self.elements@),
                start == old(core)@,
                resolved(e.take(i as int), start) == (Some(cond_views(out@)), core@),
            decreases self.elements.len() - i,
        {
            proof {
                assert(e.take(i + 1).drop_last() =~= e.take(i as int));
                assert(e.take(i + 1).last() == self.elements@[i as int]@);
            }
            let ghost before = cond_views(out@);
            let next = match &self.elements[i] {
                CondElem::Word(w) => match w.eval_as_value(core) {
                    Some(text) => CondElem::Operand(text),
                    None => {
                        proof {
                            assert(resolved(e.take(i + 1), start).0 is None);
                            lemma_resolve_fails(e, i + 1, start);
                        }
                        return None;
                    },
                },
                CondElem::UnaryOp(s) => CondElem::UnaryOp(s.clone()),
                CondElem::BinaryOp(s) => CondElem::BinaryOp(s.clone()),
                CondElem::Operand(s) => CondElem::Operand(s.clone()),
                CondElem::Not => CondElem::Not,
                CondElem::And => CondElem::And,
                CondElem::Or => CondElem::Or,
                CondElem::LeftParen => CondElem::LeftParen,
                CondElem::RightParen => CondElem::RightParen,
            };
            out.push(next);
            assert(cond_views(out@) =~= before.push(next@));
            i += 1;
        }
        assert(e.take(i as int) =~= e);
        Some(out)
    }

    /// The operands among expanded tokens: the names that the caller has to
    /// ask the system about before the tokens can be evaluated.
    pub fn operands(e: &Vec<CondElem>) -> (names: Vec<String>)
        ensures
            views(names@) == operand_texts(cond_views(e@)),
    {
        let mut names: Vec<String> = Vec::new();
        let ghost all = cond_views(e@);
        let mut i: usize = 0;
        assert(all.take(0) =~= Seq::<CondView>::empty());
        assert(views(names@) =~= Seq::<Seq<char>>::empty());
        while i < e.len()
            invariant
                i <= e.len(),
                all == cond_views(e@),
                views(names@) == operand_texts(all.take(i as int)),
            decreases e.len() - i,
        {
            proof {
                assert(all.take(i + 1).drop_last() =~= all.take(i as int));
                assert(all.take(i + 1).last() == e@[i as int]@);
            }
            if let CondElem::Operand(s) = &e[i] {
                let ghost before = views(names@);
                names.push(s.clone());
                assert(views(names@) =~= before.push(s@));
            }
            i += 1;
        }
        assert(all.take(i as int) =~= all);
        names
    }

    /// Evaluates the expression: expands its operands and carries out the
    /// tests on what the caller knows of the files.
    pub fn eval(&self, core: &mut ShellCore, facts: &FileFacts) -> (r: Result<bool, String>)
        ensures
            ({
                let (tokens, after) = resolved(cond_views(self.elements@), old(core)@);
                &&& final(core)@ == after
                &&& match tokens {
                    None => r matches Err(msg) && msg@ == self.text@ + ": wrong substitution"@,
                    Some(e) => match cond_value(e, facts@, after) {
                        Ok(b) => r == Ok::<bool, String>(b),
                        Err(m) => r matches Err(msg) && msg@ == m,
                    },
                }
            }),
    {
        match self.resolve(core) {
            Some(e) => evaluate(&e, facts, core),
            None => {
                let mut msg = self.text.clone();
                msg.append(": wrong substitution");
                Err(msg)
            },
        }
    }

    /// Takes the token with which the text begins that is no word: `&&`,
    /// `||`, a parenthesis; before an operand `!` and the tests on one
    /// operand; behind an operand the tests on two.
    fn eat_operator(feeder: &mut Feeder, ans: &mut Self) -> (ok: bool)
        requires
            old(feeder)@.wf(),
        ensures
            final(feeder)@.follows(old(feeder)@),
            final(ans).text@ == old(ans).text@ + final(feeder)@.consumed_since(old(feeder)@),
            !ok ==> final(feeder)@ == old(feeder)@ && final(ans).elements == old(ans).elements,
            ok ==> final(ans).elements@.len() == old(ans).elements@.len() + 1 && !(
            final(ans).elements@.last() is Word) && final(feeder)@.pos > old(feeder)@.pos,
            test_operator(
                old(feeder)@.chars,
                old(feeder)@.cursor(),
                old(ans).elements@.len() > 0 && old(ans).elements@.last() is Word,
            ) == ended(ok, final(feeder)@),
            ok ==> cond_views(final(ans).elements@) == cond_views(old(ans).elements@).push(
                test_operator_at(
                    old(feeder)@.chars,
                    old(feeder)@.cursor(),
                    old(ans).elements@.len() > 0 && old(ans).elements@.last() is Word,
                ),
            ),
    {
        let ghost tokens = cond_views(ans.elements@);
        let after_operand = ans.elements.len() > 0 && match &ans.elements[ans.elements.len() - 1] {
            CondElem::Word(_) => true,
            _ => false,
        };
        proof {
            reveal_strlit("!");
            reveal_strlit("&&");
            reveal_strlit("||");
            reveal_strlit("(");
            reveal_strlit(")");
            reveal_strlit("<");
            reveal_strlit(">");
        }
        let ghost start = feeder@;
        if feeder.starts_with("&&") {
            feeder.take_into(&mut ans.text, 2);
            ans.elements.push(CondElem::And);
            assert(cond_views(ans.elements@) =~= tokens.push(CondView::And));
            return true;
        }
        if feeder.starts_with("||") {
            feeder.take_into(&mut ans.text, 2);
            ans.elements.push(CondElem::Or);
            assert(cond_views(ans.elements@) =~= tokens.push(CondView::Or));
            return true;
        }
        if feeder.starts_with("(") {
            feeder.take_into(&mut ans.text, 1);
            ans.elements.push(CondElem::LeftParen);
            assert(cond_views(ans.elements@) =~= tokens.push(CondView::LeftParen));
            return true;
        }
        if feeder.starts_with(")") {
            feeder.take_into(&mut ans.text, 1);
            ans.elements.push(CondElem::RightParen);
            assert(cond_views(ans.elements@) =~= tokens.push(CondView::RightParen));
            return true;
        }
        if !after_operand {
            if feeder.starts_with_keyword("!") {
                feeder.take_into(&mut ans.text, 1);
                ans.elements.push(CondElem::Not);
                assert(cond_views(ans.elements@) =~= tokens.push(CondView::Not));
                return true;
            }
            let n = feeder.scanner_test_unary_operator();
            if n > 0 {
                let op = feeder.consume(n);
                ans.text.append(op.as_str());
                let ghost text = op@;
                ans.elements.push(CondElem::UnaryOp(op));
                assert(cond_views(ans.elements@) =~= tokens.push(CondView::UnaryOp(text)));
                return true;
            }
        } else {
            let n = feeder.scanner_test_binary_operator();
            let len = if n > 0 {
                n
            } else if feeder.starts_with("<") || feeder.starts_with(">") {
                1
            } else {
                0
            };
            if len > 0 {
                let op = feeder.consume(len);
                ans.text.append(op.as_str());
                let ghost text = op@;
                ans.elements.push(CondElem::BinaryOp(op));
                assert(cond_views(ans.elements@) =~= tokens.push(CondView::BinaryOp(text)));
                return true;
            }
        }
        assert(old(ans).text@ + feeder@.consumed_since(start) =~= old(ans).text@);
        false
    }

    /// Reads a conditional expression up to the `]]` that ends it, which
    /// stays in the text. `None` where something else ends it, and where it
    /// has no token.
    pub fn parse(feeder: &mut Feeder, core: &mut ShellCore) -> (r: Option<ConditionalExpr>)
        requires
            old(feeder)@.wf(),
        ensures
            *final(core) == *old(core),
            match r {
                Some(c) => final(feeder)@.took(old(feeder)@, c.text@) && c.elements@.len() > 0
                    && keyword_at(final(feeder)@.remaining(), "]]"@),
                None => final(feeder)@ == old(feeder)@,
            },
            cond_rest(old(feeder)@.chars, old(feeder)@.cursor(), 0, false) == ended(
                r is Some,
                final(feeder)@,
            ),
            r matches Some(c) ==> cond_views(c.elements@) == cond_tokens(
                old(feeder)@.chars,
                old(feeder)@.cursor(),
                Seq::empty(),
            ),
        decreases old(feeder)@.left(), old(feeder)@.unfed(), 5nat,
    {
        let pos = feeder.pos;
        let limit = feeder.limit;
        let mut ans = ConditionalExpr::new();
        let ghost start = feeder@;
        assert(feeder@.consumed_since(start) =~= ans.text@);
        assert(cond_views(ans.elements@) =~= Seq::<CondView>::empty());
        loop
            invariant
                cond_tokens(start.chars, feeder@.cursor(), cond_views(ans.elements@))
                    == cond_tokens(start.chars, start.cursor(), Seq::empty()),
                cond_rest(
                    start.chars,
                    feeder@.cursor(),
                    ans.elements@.len() as nat,
                    ans.elements@.len() > 0 && ans.elements@.last() is Word,
                ) == cond_rest(start.chars, start.cursor(), 0, false),
                start == old(feeder)@,
                start.wf(),
                pos == start.pos,
                limit == start.limit,
                feeder@.follows(start),
                ans.text@ == feeder@.consumed_since(start),
                *core == *old(core),
            decreases feeder@.left(), feeder@.unfed(),
        {
            let ghost top = feeder@;
            let ghost tokens = cond_views(ans.elements@);
            proof {
                reveal(cond_rest);
                reveal(cond_tokens);
                assert(ans.elements@.len() > 0 ==> tokens.last() == ans.elements@.last()@);
            }
            let n = feeder.scanner_multiline_blank(core);
            feeder.take_into(&mut ans.text, n);
            let ghost before = feeder@;
            proof {
                lemma_took_twice(start, top, before);
                assert(ans.text@ =~= before.consumed_since(start));
            }
            if feeder.starts_with_keyword("]]") {
                if ans.elements.len() == 0 {
                    feeder.reset(pos, limit);
                    return None;
                }
                return Some(ans);
            }
            if feeder.len() == 0 {
                if feeder.feed_additional_line(core) {
                    assert(feeder@.consumed_since(start) =~= before.consumed_since(start));
                    continue ;
                }
                feeder.reset(pos, limit);
                return None;
            }
            if !Self::eat_operator(feeder, &mut ans) {
                match Word::parse(feeder, core) {
                    Some(w) => {
                        ans.text.append(w.text.as_str());
                        ans.elements.push(CondElem::Word(w));
                        assert(cond_views(ans.elements@) =~= tokens.push(CondView::Word(w@)));
                    },
                    None => {
                        feeder.reset(pos, limit);
                        return None;
                    },
                }
            }
            proof {
                lemma_took_twice(start, before, feeder@);
                assert(ans.text@ =~= feeder@.consumed_since(start));
            }
        }
    }
}

} // verus!
