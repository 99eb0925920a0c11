//! The scanners: each gives the length of the piece of a certain kind with
//! which the text before the parser begins, 0 where it begins with none.

use vstd::prelude::*;
use crate::feeder::Feeder;
use crate::feeder::keyword_at;
use crate::shell::ShellCore;
use crate::text::digit;
use crate::text::name_head;
use crate::text::name_tail;
use crate::text::to_chars;
use crate::text::starts_at;
use crate::text::views;

verus! {

/// The classes of characters that the scanners know.
#[derive(Debug, Clone, Copy)]
pub enum CharClass {
    /// A space or a tab.
    Blank,
    /// A space, a tab or a newline.
    Space,
    /// A decimal digit.
    Digit,
    /// A letter, a digit or `_`.
    NameTail,
    /// Anything but a newline.
    InLine,
    /// Anything but a single quote.
    InSingleQuotes,
    /// A character of a word: not a blank, not a newline, none of `;&|()<>`.
    InWord,
    /// A character of an unquoted subword: a character of a word that is no
    /// quote, no backslash, no backquote and none of the symbols `{},$~/`.
    InSubword,
    /// A character of an operand of arithmetic: a letter, a digit or one of
    /// `_#@.`.
    InOperand,
    /// A character that stands for itself between double quotes: none of
    /// `"$\` and no backquote.
    InDoubleQuotes,
}

pub open spec fn blank(c: char) -> bool {
    c == ' ' || c == '\t'
}

pub open spec fn metachar(c: char) -> bool {
    blank(c) || c == '\n' || c == ';' || c == '&' || c == '|' || c == '(' || c == ')' || c == '<'
        || c == '>'
}

/// The one-character symbols that are subwords of their own.
pub open spec fn symbol(c: char) -> bool {
    c == '{' || c == '}' || c == ',' || c == '$' || c == '~' || c == '/'
}

impl CharClass {
    pub open spec fn has(self, c: char) -> bool {
        match self {
            CharClass::Blank => blank(c),
            CharClass::Space => blank(c) || c == '\n',
            CharClass::Digit => digit(c),
            CharClass::NameTail => name_tail(c),
            CharClass::InLine => c != '\n',
            CharClass::InSingleQuotes => c != '\'',
            CharClass::InWord => !metachar(c),
            CharClass::InSubword => !metachar(c) && !symbol(c) && c != '\'' && c != '"' && c
                != '\\' && c != '`',
            CharClass::InOperand => name_tail(c) || c == '#' || c == '@' || c == '.',
            CharClass::InDoubleQuotes => c != '"' && c != '$' && c != '\\' && c != '`',
        }
    }

    pub fn contains(&self, c: char) -> (b: bool)
        ensures
            b == self.has(c),
    {
        let is_blank = c == ' ' || c == '\t';
        let is_meta = is_blank || c == '\n' || c == ';' || c == '&' || c == '|' || c == '('
            || c == ')' || c == '<' || c == '>';
        match self {
            CharClass::Blank => is_blank,
            CharClass::Space => is_blank || c == '\n',
            CharClass::Digit => '0' <= c && c <= '9',
            CharClass::NameTail => ('a' <= c && c <= 'z') || ('A' <= c && c <= 'Z') || ('0' <= c
                && c <= '9') || c == '_',
            CharClass::InLine => c != '\n',
            CharClass::InSingleQuotes => c != '\'',
            CharClass::InWord => !is_meta,
            CharClass::InSubword => !is_meta && !(c == '{' || c == '}' || c == ',' || c == '$'
                || c == '~' || c == '/') && c != '\'' && c != '"' && c != '\\' && c != '`',
            CharClass::InOperand => ('a' <= c && c <= 'z') || ('A' <= c && c <= 'Z') || ('0' <= c
                && c <= '9') || c == '_' || c == '#' || c == '@' || c == '.',
            CharClass::InDoubleQuotes => c != '"' && c != '$' && c != '\\' && c != '`',
        }
    }
}

/// How many characters of the class stand in a row in `s` from `from` on.
pub open spec fn run_length(s: Seq<char>, from: int, class: CharClass) -> nat
    decreases s.len() - from,
{
    if 0 <= from < s.len() && class.has(s[from]) {
        1 + run_length(s, from + 1, class)
    } else {
        0
    }
}

/// The run that `run_length` measures holds only characters of the class, and
/// ends at the end of `s` or before a character that is not of the class.
pub proof fn lemma_run_length(s: Seq<char>, from: int, class: CharClass)
    requires
        0 <= from <= s.len(),
    ensures
        from + run_length(s, from, class) <= s.len(),
        forall|i: int| from <= i < from + run_length(s, from, class) ==> class.has(#[trigger] s[i]),
        from + run_length(s, from, class) < s.len() ==> !class.has(
            s[from + run_length(s, from, class)],
        ),
    decreases s.len() - from,
{
    if from < s.len() && class.has(s[from]) {
        lemma_run_length(s, from + 1, class);
    }
}

/// The length of a name at the start of `s`: a letter or `_`, then letters,
/// digits and `_`.
pub open spec fn name_length(s: Seq<char>) -> nat {
    if s.len() > 0 && name_head(s[0]) {
        1 + run_length(s, 1, CharClass::NameTail)
    } else {
        0
    }
}

/// The length of a comment at the start of `s`: from `#` to the end of the
/// line, without the newline.
pub open spec fn comment_length(s: Seq<char>) -> nat {
    if s.len() > 0 && s[0] == '#' {
        1 + run_length(s, 1, CharClass::InLine)
    } else {
        0
    }
}

/// The length of a backslash and the character behind it at the start of `s`.
pub open spec fn escaped_length(s: Seq<char>) -> nat {
    if s.len() >= 2 && s[0] == '\\' {
        2
    } else {
        0
    }
}

/// The length of a single-quoted piece at the start of `s`, both quotes
/// counted; 0 where the closing quote is missing.
pub open spec fn single_quoted_length(s: Seq<char>) -> nat {
    if s.len() > 0 && s[0] == '\'' && 1 + run_length(s, 1, CharClass::InSingleQuotes) < s.len() {
        2 + run_length(s, 1, CharClass::InSingleQuotes)
    } else {
        0
    }
}

/// 1 where `s` begins with a symbol that is a subword of its own.
pub open spec fn symbol_length(s: Seq<char>) -> nat {
    if s.len() > 0 && symbol(s[0]) {
        1
    } else {
        0
    }
}

/// The length of the unquoted subword at the start of `s`: a backslash with
/// the character behind it, else a symbol, else a run of ordinary characters.
pub open spec fn token_length(s: Seq<char>) -> nat {
    if escaped_length(s) > 0 {
        escaped_length(s)
    } else if symbol_length(s) > 0 {
        symbol_length(s)
    } else {
        run_length(s, 0, CharClass::InSubword)
    }
}

/// The length of the first entry of `table` with which `s` begins; 0 where it
/// begins with none.
pub open spec fn first_match(s: Seq<char>, table: Seq<Seq<char>>) -> nat
    decreases table.len(),
{
    if table.len() == 0 {
        0
    } else if table[0].is_prefix_of(s) {
        table[0].len()
    } else {
        first_match(s, table.drop_first())
    }
}

/// The binary operators of arithmetic, longer ones before their beginnings.
pub open spec fn binary_operators() -> Seq<Seq<char>> {
    seq![
        "<<="@,
        ">>="@,
        "**"@,
        "&&"@,
        "||"@,
        "<<"@,
        ">>"@,
        "<="@,
        ">="@,
        "=="@,
        "!="@,
        "*="@,
        "/="@,
        "%="@,
        "+="@,
        "-="@,
        "&="@,
        "^="@,
        "|="@,
        "+"@,
        "-"@,
        "*"@,
        "/"@,
        "%"@,
        "<"@,
        ">"@,
        "&"@,
        "^"@,
        "|"@,
        "="@,
        ","@,
    ]
}

/// The unary operators of arithmetic.
pub open spec fn unary_operators() -> Seq<Seq<char>> {
    seq!["+"@, "-"@, "!"@, "~"@]
}

/// The symbols of redirections, longer ones before their beginnings.
pub open spec fn redirect_symbols() -> Seq<Seq<char>> {
    seq!["&>>"@, "<<<"@, "&>"@, ">>"@, ">&"@, "<&"@, "<<"@, "<"@, ">"@]
}

/// The separators between the pipelines of a job.
pub open spec fn and_or_symbols() -> Seq<Seq<char>> {
    seq!["&&"@, "||"@]
}

/// The ends of a job.
pub open spec fn job_ends() -> Seq<Seq<char>> {
    seq![";"@, "&"@, "\n"@]
}

/// The length of the first entry of `table` that stands at the start of `s`
/// as a word of its own; 0 where none does.
pub open spec fn keyword_match(s: Seq<char>, table: Seq<Seq<char>>) -> nat
    decreases table.len(),
{
    if table.len() == 0 {
        0
    } else if table[0].len() > 0 && keyword_at(s, table[0]) {
        table[0].len()
    } else {
        keyword_match(s, table.drop_first())
    }
}

/// The tests of a conditional expression on one operand.
pub open spec fn test_unary_operators() -> Seq<Seq<char>> {
    seq![
        "-z"@,
        "-n"@,
        "-v"@,
        "-a"@,
        "-e"@,
        "-f"@,
        "-d"@,
        "-h"@,
        "-L"@,
        "-r"@,
        "-w"@,
        "-x"@,
        "-t"@,
        "-b"@,
        "-c"@,
        "-p"@,
        "-s"@,
        "-G"@,
        "-N"@,
        "-O"@,
        "-S"@,
        "-g"@,
        "-k"@,
        "-u"@,
    ]
}

/// The tests of a conditional expression on two operands that are written
/// as words.
pub open spec fn test_binary_operators() -> Seq<Seq<char>> {
    seq![
        "=="@,
        "=~"@,
        "="@,
        "!="@,
        "-eq"@,
        "-ne"@,
        "-lt"@,
        "-le"@,
        "-gt"@,
        "-ge"@,
        "-ef"@,
        "-nt"@,
        "-ot"@,
    ]
}

/// The operators of a conditional expression that test a file.
pub open spec fn file_check_options() -> Seq<Seq<char>> {
    seq![
        "-a"@,
        "-b"@,
        "-c"@,
        "-d"@,
        "-e"@,
        "-f"@,
        "-g"@,
        "-h"@,
        "-k"@,
        "-p"@,
        "-r"@,
        "-s"@,
        "-t"@,
        "-u"@,
        "-w"@,
        "-x"@,
        "-G"@,
        "-L"@,
        "-N"@,
        "-O"@,
        "-S"@,
    ]
}

/// A run measured in a text is measured again, in full, in the text cut
/// behind the run.
pub proof fn lemma_run_of_prefix(s: Seq<char>, from: int, class: CharClass)
    requires
        0 <= from,
        from + run_length(s, from, class) <= s.len(),
    ensures
        run_length(s.take(from + run_length(s, from, class)), from, class) == run_length(
            s,
            from,
            class,
        ),
    decreases s.len() - from,
{
    let end = from + run_length(s, from, class);
    if from < s.len() && class.has(s[from]) {
        lemma_run_of_prefix(s, from + 1, class);
        assert(s.take(end)[from] == s[from]);
    }
}

/// The text of an unquoted subword, read again, is one unquoted subword: the
/// scanner takes all of it.
pub proof fn lemma_token_round_trip(s: Seq<char>)
    requires
        token_length(s) > 0,
    ensures
        token_length(s) <= s.len(),
        token_length(s.take(token_length(s) as int)) == token_length(s),
{
    let n = token_length(s);
    let t = s.take(n as int);
    if escaped_length(s) > 0 {
        assert(t[0] == s[0]);
    } else if symbol_length(s) > 0 {
        assert(t[0] == s[0]);
    } else {
        lemma_run_length(s, 0, CharClass::InSubword);
        lemma_run_of_prefix(s, 0, CharClass::InSubword);
        assert(t[0] == s[0]);
        if t.len() >= 2 {
            assert(t[1] == s[1]);
        }
    }
}

/// The text of a single-quoted subword, read again, is one single-quoted
/// subword.
pub proof fn lemma_single_quoted_round_trip(s: Seq<char>)
    requires
        single_quoted_length(s) > 0,
    ensures
        single_quoted_length(s) <= s.len(),
        single_quoted_length(s.take(single_quoted_length(s) as int)) == single_quoted_length(s),
{
    let n = single_quoted_length(s);
    let body = run_length(s, 1, CharClass::InSingleQuotes) as int;
    let t = s.take(n as int);
    lemma_run_length(s, 1, CharClass::InSingleQuotes);
    lemma_run_shorter(s, t, 1, CharClass::InSingleQuotes, 1 + body);
    assert(t[0] == s[0]);
}

/// Two texts that agree up to `end` have the same run before `end`, where
/// the run ends there in both: the character at `end` is not of the class.
pub proof fn lemma_run_shorter(s: Seq<char>, t: Seq<char>, from: int, class: CharClass, end: int)
    requires
        0 <= from <= end,
        end < t.len() <= s.len(),
        forall|i: int| 0 <= i <= end ==> s[i] == t[i],
        from + run_length(s, from, class) == end,
    ensures
        run_length(t, from, class) == run_length(s, from, class),
    decreases end - from,
{
    if from < end {
        assert(class.has(s[from]));
        lemma_run_shorter(s, t, from + 1, class, end);
    } else {
        assert(!class.has(s[from]) || from >= s.len());
    }
}

fn table_of(entries: &[&str]) -> (table: Vec<String>)
    ensures
        table@.len() == entries@.len(),
        forall|i: int| 0 <= i < entries@.len() ==> (#[trigger] table@[i])@ == entries@[i]@,
{
    let mut table: Vec<String> = Vec::new();
    let mut i: usize = 0;
    while i < entries.len()
        invariant
            i <= entries.len(),
            table@.len() == i,
            forall|k: int| 0 <= k < i ==> (#[trigger] table@[k])@ == entries@[k]@,
        decreases entries.len() - i,
    {
        table.push(String::from_str(entries[i]));
        i += 1;
    }
    table
}

impl Feeder {
    /// How many characters of the class stand in a row from the `from`-th
    /// character that the parser sees.
    pub fn scan_while(&self, from: usize, class: CharClass) -> (n: usize)
        requires
            self@.wf(),
            from <= self@.remaining().len(),
        ensures
            n == run_length(self@.remaining(), from as int, class),
            from + n <= self@.remaining().len(),
    {
        let ghost s = self@.remaining();
        let mut i: usize = self.pos + from;
        while i < self.limit && class.contains(self.chars[i])
            invariant
                self@.wf(),
                s == self@.remaining(),
                self.pos + from <= i <= self.limit,
                run_length(s, from as int, class) == (i - self.pos - from) + run_length(
                    s,
                    i - self.pos,
                    class,
                ),
            decreases self.limit - i,
        {
            assert(s[i - self.pos] == self.chars@[i as int]);
            i += 1;
        }
        proof {
            if i < self.limit {
                assert(s[i - self.pos] == self.chars@[i as int]);
            }
        }
        i - self.pos - from
    }

    /// The character at the `i`-th place of what the parser sees.
    pub fn peek(&self, i: usize) -> (c: Option<char>)
        requires
            self@.wf(),
        ensures
            c == if i < self@.remaining().len() {
                Some(self@.remaining()[i as int])
            } else {
                None
            },
    {
        if i < self.limit - self.pos {
            Some(self.chars[self.pos + i])
        } else {
            None
        }
    }

    /// The length of the first entry of `table` with which the text begins.
    pub fn scan_table(&self, table: &Vec<String>) -> (n: usize)
        requires
            self@.wf(),
        ensures
            n == first_match(self@.remaining(), views(table@)),
            n <= self@.remaining().len(),
    {
        let ghost s = self@.remaining();
        let ghost t = views(table@);
        let mut i: usize = 0;
        assert(t.skip(0) =~= t);
        while i < table.len()
            invariant
                self@.wf(),
                i <= table.len(),
                s == self@.remaining(),
                t == views(table@),
                first_match(s, t) == first_match(s, t.skip(i as int)),
            decreases table.len() - i,
        {
            let pat = to_chars(table[i].as_str());
            assert(t.skip(i as int)[0] == pat@);
            assert(t.skip(i as int).drop_first() =~= t.skip(i + 1));
            if starts_at(&self.chars, self.pos, self.limit, &pat) {
                return pat.len();
            }
            i += 1;
        }
        0
    }

    pub fn scanner_name(&self, core: &ShellCore) -> (n: usize)
        requires
            self@.wf(),
        ensures
            n == name_length(self@.remaining()),
            n <= self@.remaining().len(),
    {
        match self.peek(0) {
            Some(c) => {
                if ('a' <= c && c <= 'z') || ('A' <= c && c <= 'Z') || c == '_' {
                    1 + self.scan_while(1, CharClass::NameTail)
                } else {
                    0
                }
            },
            None => 0,
        }
    }

    pub fn scanner_nonnegative_integer(&self, core: &ShellCore) -> (n: usize)
        requires
            self@.wf(),
        ensures
            n == run_length(self@.remaining(), 0, CharClass::Digit),
            n <= self@.remaining().len(),
    {
        self.scan_while(0, CharClass::Digit)
    }

    pub fn scanner_blank(&self, core: &ShellCore) -> (n: usize)
        requires
            self@.wf(),
        ensures
            n == run_length(self@.remaining(), 0, CharClass::Blank),
            n <= self@.remaining().len(),
    {
        self.scan_while(0, CharClass::Blank)
    }

    pub fn scanner_multiline_blank(&self, core: &ShellCore) -> (n: usize)
        requires
            self@.wf(),
        ensures
            n == run_length(self@.remaining(), 0, CharClass::Space),
            n <= self@.remaining().len(),
    {
        self.scan_while(0, CharClass::Space)
    }

    pub fn scanner_comment(&self) -> (n: usize)
        requires
            self@.wf(),
        ensures
            n == comment_length(self@.remaining()),
            n <= self@.remaining().len(),
    {
        match self.peek(0) {
            Some('#') => 1 + self.scan_while(1, CharClass::InLine),
            _ => 0,
        }
    }

    pub fn scanner_word(&self, core: &ShellCore) -> (n: usize)
        requires
            self@.wf(),
        ensures
            n == run_length(self@.remaining(), 0, CharClass::InWord),
            n <= self@.remaining().len(),
    {
        self.scan_while(0, CharClass::InWord)
    }

    pub fn scanner_escaped_char(&self, core: &ShellCore) -> (n: usize)
        requires
            self@.wf(),
        ensures
            n == escaped_length(self@.remaining()),
            n <= self@.remaining().len(),
    {
        if self.len() >= 2 && self.chars[self.pos] == '\\' {
            2
        } else {
            0
        }
    }

    pub fn scanner_single_quoted_subword(&self, core: &ShellCore) -> (n: usize)
        requires
            self@.wf(),
        ensures
            n == single_quoted_length(self@.remaining()),
            n <= self@.remaining().len(),
    {
        match self.peek(0) {
            Some('\'') => {
                let body = self.scan_while(1, CharClass::InSingleQuotes);
                if 1 + body < self.len() {
                    2 + body
                } else {
                    0
                }
            },
            _ => 0,
        }
    }

    pub fn scanner_subword_symbol(&self) -> (n: usize)
        requires
            self@.wf(),
        ensures
            n == symbol_length(self@.remaining()),
            n <= self@.remaining().len(),
    {
        match self.peek(0) {
            Some(c) => {
                if c == '{' || c == '}' || c == ',' || c == '$' || c == '~' || c == '/' {
                    1
                } else {
                    0
                }
            },
            None => 0,
        }
    }

    pub fn scanner_unquoted_subword(&self) -> (n: usize)
        requires
            self@.wf(),
        ensures
            n == run_length(self@.remaining(), 0, CharClass::InSubword),
            n <= self@.remaining().len(),
    {
        self.scan_while(0, CharClass::InSubword)
    }

    pub fn scanner_binary_operator(&self, core: &ShellCore) -> (n: usize)
        requires
            self@.wf(),
        ensures
            n == first_match(self@.remaining(), binary_operators()),
            n <= self@.remaining().len(),
    {
        let table = table_of(
            &[
                "<<=",
                ">>=",
                "**",
                "&&",
                "||",
                "<<",
                ">>",
                "<=",
                ">=",
                "==",
                "!=",
                "*=",
                "/=",
                "%=",
                "+=",
                "-=",
                "&=",
                "^=",
                "|=",
                "+",
                "-",
                "*",
                "/",
                "%",
                "<",
                ">",
                "&",
                "^",
                "|",
                "=",
                ",",
            ],
        );
        assert(views(table@) =~= binary_operators());
        self.scan_table(&table)
    }

    pub fn scanner_unary_operator(&self, core: &ShellCore) -> (n: usize)
        requires
            self@.wf(),
        ensures
            n == first_match(self@.remaining(), unary_operators()),
            n <= self@.remaining().len(),
    {
        let table = table_of(&["+", "-", "!", "~"]);
        assert(views(table@) =~= unary_operators());
        self.scan_table(&table)
    }

    pub fn scanner_redirect_symbol(&self, core: &ShellCore) -> (n: usize)
        requires
            self@.wf(),
        ensures
            n == first_match(self@.remaining(), redirect_symbols()),
            n <= self@.remaining().len(),
    {
        let table = table_of(&["&>>", "<<<", "&>", ">>", ">&", "<&", "<<", "<", ">"]);
        assert(views(table@) =~= redirect_symbols());
        self.scan_table(&table)
    }

    pub fn scanner_and_or(&self, core: &ShellCore) -> (n: usize)
        requires
            self@.wf(),
        ensures
            n == first_match(self@.remaining(), and_or_symbols()),
            n <= self@.remaining().len(),
    {
        let table = table_of(&["&&", "||"]);
        assert(views(table@) =~= and_or_symbols());
        self.scan_table(&table)
    }

    pub fn scanner_job_end(&self) -> (n: usize)
        requires
            self@.wf(),
        ensures
            n == first_match(self@.remaining(), job_ends()),
            n <= self@.remaining().len(),
    {
        let table = table_of(&[";", "&", "\n"]);
        assert(views(table@) =~= job_ends());
        self.scan_table(&table)
    }

    /// The length of the first entry of `table` that stands at the start of
    /// the text as a word of its own.
    pub fn scan_keywords(&self, table: &Vec<String>) -> (n: usize)
        requires
            self@.wf(),
        ensures
            n == keyword_match(self@.remaining(), views(table@)),
            n <= self@.remaining().len(),
    {
        let ghost s = self@.remaining();
        let ghost t = views(table@);
        let mut i: usize = 0;
        assert(t.skip(0) =~= t);
        while i < table.len()
            invariant
                i <= table.len(),
                self@.wf(),
                s == self@.remaining(),
                t == views(table@),
                keyword_match(s, t) == keyword_match(s, t.skip(i as int)),
            decreases table.len() - i,
        {
            assert(t.skip(i as int)[0] == table@[i as int]@);
            assert(t.skip(i as int).drop_first() =~= t.skip(i + 1));
            let n = table[i].as_str().unicode_len();
            if n > 0 && self.starts_with_keyword(table[i].as_str()) {
                return n;
            }
            i += 1;
        }
        0
    }

    pub fn scanner_test_unary_operator(&self) -> (n: usize)
        requires
            self@.wf(),
        ensures
            n == keyword_match(self@.remaining(), test_unary_operators()),
            n <= self@.remaining().len(),
    {
        let table = table_of(
            &[
                "-z",
                "-n",
                "-v",
                "-a",
                "-e",
                "-f",
                "-d",
                "-h",
                "-L",
                "-r",
                "-w",
                "-x",
                "-t",
                "-b",
                "-c",
                "-p",
                "-s",
                "-G",
                "-N",
                "-O",
                "-S",
                "-g",
                "-k",
                "-u",
            ],
        );
        assert(views(table@) =~= test_unary_operators());
        self.scan_keywords(&table)
    }

    pub fn scanner_test_binary_operator(&self) -> (n: usize)
        requires
            self@.wf(),
        ensures
            n == keyword_match(self@.remaining(), test_binary_operators()),
            n <= self@.remaining().len(),
    {
        let table = table_of(
            &["==", "=~", "=", "!=", "-eq", "-ne", "-lt", "-le", "-gt", "-ge", "-ef", "-nt", "-ot"],
        );
        assert(views(table@) =~= test_binary_operators());
        self.scan_keywords(&table)
    }

    pub fn scanner_test_file_check_option(&self, core: &ShellCore) -> (n: usize)
        requires
            self@.wf(),
        ensures
            n == first_match(self@.remaining(), file_check_options()),
            n <= self@.remaining().len(),
    {
        let table = table_of(
            &[
                "-a",
                "-b",
                "-c",
                "-d",
                "-e",
                "-f",
                "-g",
                "-h",
                "-k",
                "-p",
                "-r",
                "-s",
                "-t",
                "-u",
                "-w",
                "-x",
                "-G",
                "-L",
                "-N",
                "-O",
                "-S",
            ],
        );
        assert(views(table@) =~= file_check_options());
        self.scan_table(&table)
    }
}

} // verus!
