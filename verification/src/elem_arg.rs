//! The elements of a simple command line: arguments, the blanks between
//! them, and the end of the command.

use vstd::prelude::*;
use crate::elements::grammar::Cursor;
use crate::elements::grammar::onward;
use crate::elements::grammar::subword_end;
use crate::debuginfo::DebugInfo;
use crate::elements::subword::Subword;
use crate::elements::word::Word;
use crate::elements::word::WordView;
use crate::elements::word::concat_texts;
use crate::elements::word::list_fields;
use crate::elements::word::push_subword;
use crate::elements::word::subword_views;
use crate::elements::word::word_fields;
use crate::elements::word::duplicate_subwords;
use crate::elements::word::split::FieldView;
use crate::feeder::Feeder;
use crate::feeder::FeederView;
use crate::feeder::lemma_took_twice;
use crate::feeder::scanner::CharClass;
use crate::feeder::scanner::run_length;
use crate::shell::CoreView;
use crate::shell::ShellCore;
use crate::text::to_chars;
use crate::text::from_chars;
use crate::text::views;

verus! {

/// What every element of a command line can do.
pub trait ElemOfCommand {
    /// The source text of the element.
    spec fn source(&self) -> Seq<char>;

    /// The lines that describe the element for debugging.
    fn parse_info(&self) -> (lines: Vec<String>)
        ensures
            lines@.len() > 0,
    ;

    /// What the element contributes to the arguments of the command.
    fn eval(&mut self, conf: &mut ShellCore) -> (args: Vec<String>)
        ensures
            final(self).source() == old(self).source(),
    ;

    /// The source text of the element.
    fn text(&self) -> (t: String)
        ensures
            t@ == self.source(),
    ;
}

/// The blanks between two arguments.
#[derive(Debug)]
pub struct ArgDelimiter {
    pub text: String,
    pub debug: DebugInfo,
}

impl ElemOfCommand for ArgDelimiter {
    open spec fn source(&self) -> Seq<char> {
        self.text@
    }

    fn parse_info(&self) -> (lines: Vec<String>)
        ensures
            lines@.len() == 1,
            lines@[0]@ == "    delimiter: '"@ + self.text@ + "' ("@ + self.debug.shown() + ")"@,
    {
        let mut line = String::from_str("    delimiter: '");
        line.append(self.text.as_str());
        line.append("' (");
        line.append(self.debug.text().as_str());
        line.append(")");
        let mut lines: Vec<String> = Vec::new();
        lines.push(line);
        lines
    }

    fn eval(&mut self, conf: &mut ShellCore) -> (args: Vec<String>)
        ensures
            args@.len() == 0,
            final(self).text == old(self).text,
            *final(conf) == *old(conf),
    {
        Vec::new()
    }

    fn text(&self) -> (t: String) {
        self.text.clone()
    }
}

impl ArgDelimiter {
    /// Takes the first `pos` characters as a delimiter; there is none where
    /// `pos` is 0.
    pub fn return_if_valid(text: &mut Feeder, pos: usize) -> (r: Option<ArgDelimiter>)
        requires
            old(text)@.wf(),
            pos <= old(text)@.remaining().len(),
        ensures
            match r {
                Some(d) => pos > 0 && d.text@ == old(text)@.remaining().take(pos as int) && final(text)@ == (FeederView { pos: old(text)@.pos + pos, ..old(text)@ }),
                None => pos == 0 && final(text)@ == old(text)@,
            },
    {
        if pos == 0 {
            return None;
        }
        let s = text.consume(pos);
        Some(ArgDelimiter { text: s, debug: DebugInfo::init(text) })
    }

    /// Takes the blanks with which the text begins.
    pub fn parse(text: &mut Feeder) -> (r: Option<ArgDelimiter>)
        requires
            old(text)@.wf(),
        ensures
            ({
                let n = run_length(old(text)@.remaining(), 0, CharClass::Blank);
                match r {
                    Some(d) => n > 0 && d.text@ == old(text)@.remaining().take(n as int) && final(text)@ == (FeederView { pos: old(text)@.pos + n, ..old(text)@ }),
                    None => n == 0 && final(text)@ == old(text)@,
                }
            }),
    {
        let pos = text.scan_while(0, CharClass::Blank);
        ArgDelimiter::return_if_valid(text, pos)
    }
}

/// The end of a command: `;`, a newline, or a comment.
#[derive(Debug)]
pub struct Eoc {
    pub text: String,
    pub debug: DebugInfo,
}

impl ElemOfCommand for Eoc {
    open spec fn source(&self) -> Seq<char> {
        self.text@
    }

    fn parse_info(&self) -> (lines: Vec<String>)
        ensures
            lines@.len() == 1,
            lines@[0]@ == "    end mark : '"@ + self.text@ + "' ("@ + self.debug.shown() + ")\n"@,
    {
        let mut line = String::from_str("    end mark : '");
        line.append(self.text.as_str());
        line.append("' (");
        line.append(self.debug.text().as_str());
        line.append(")\n");
        let mut lines: Vec<String> = Vec::new();
        lines.push(line);
        lines
    }

    fn eval(&mut self, conf: &mut ShellCore) -> (args: Vec<String>)
        ensures
            args@.len() == 0,
            final(self).text == old(self).text,
            *final(conf) == *old(conf),
    {
        Vec::new()
    }

    fn text(&self) -> (t: String) {
        self.text.clone()
    }
}

/// One argument of a command.
#[derive(Debug)]
pub struct Arg {
    pub text: String,
    pub pos: DebugInfo,
    /// The pieces of the argument.
    pub subargs: Vec<Subword>,
    /// Whether braces in the argument offer choices. They do not in the value
    /// of an assignment.
    pub expand_brace: bool,
}

/// A text without the backslashes that escape: each backslash goes and the
/// character behind it stays, whatever it is.
pub open spec fn unescaped(s: Seq<char>) -> Seq<char>
    decreases s.len(),
{
    if s.len() == 0 {
        s
    } else if s[0] == '\\' {
        if s.len() == 1 {
            Seq::empty()
        } else {
            seq![s[1]] + unescaped(s.skip(2))
        }
    } else {
        seq![s[0]] + unescaped(s.skip(1))
    }
}

/// The strings that an argument stands for: the texts of its fields, none
/// where its expansion fails.
pub open spec fn arg_values(subargs: Seq<crate::elements::subword::SubwordView>, braces: bool, st: CoreView) -> (
    Seq<Seq<char>>,
    CoreView,
) {
    let (fields, after) = if braces {
        word_fields(WordView { text: concat_texts(subargs), subwords: subargs }, st)
    } else {
        list_fields(subargs, st)
    };
    match fields {
        Some(f) => (f.map_values(|x: FieldView| x.text), after),
        None => (Seq::empty(), after),
    }
}

/// Where the argument at `c` ends: behind its subwords, which are taken one
/// after another as long as there are any in what the parser sees.
pub open spec fn arg_end(chars: Seq<char>, c: Cursor) -> Cursor
    decreases chars.len() - c.pos, chars.len() - c.limit,
{
    match onward(chars, c, subword_end(chars, c)) {
        Some(next) => if next.sees(chars).len() == 0 {
            next
        } else {
            arg_end(chars, next)
        },
        None => c,
    }
}

impl Arg {
    /// What the pattern `text` expands to once the file system gave `matches`
    /// for it: the matches in the order of the dictionary. Where there are
    /// none, it is the pattern itself, without the backslashes that protect
    /// `*` and backslashes, or with `nullglob` nothing at all.
    pub fn expand_glob(text: &String, matches: &Vec<String>, nullglob: bool) -> (ans: Vec<String>)
        ensures
            matches@.len() == 0 && nullglob ==> ans@.len() == 0,
            matches@.len() == 0 && !nullglob ==> views(ans@) == seq![
                crate::utils::glob::literal_pattern(text@),
            ],
            matches@.len() > 0 ==> crate::utils::glob::sorted(views(ans@)) && views(
                ans@,
            ).to_multiset() == views(matches@).to_multiset(),
    {
        crate::utils::glob::expand(text, matches, nullglob)
    }

    /// Takes the escaping backslashes out of a text.
    pub fn remove_escape(text: &String) -> (ans: String)
        ensures
            ans@ == unescaped(text@),
    {
        let v = to_chars(text.as_str());
        let mut ans: Vec<char> = Vec::new();
        let mut i: usize = 0;
        proof {
            assert(v@.skip(0) =~= v@);
        }
        while i < v.len()
            invariant
                i <= v.len(),
                ans@ + unescaped(v@.skip(i as int)) == unescaped(v@),
            decreases v.len() - i,
        {
            let ghost rest = v@.skip(i as int);
            let ghost before = ans@;
            assert(rest[0] == v@[i as int]);
            if v[i] == '\\' {
                if i + 1 < v.len() {
                    assert(rest[1] == v@[i + 1]);
                    ans.push(v[i + 1]);
                    assert(rest.skip(2) =~= v@.skip(i + 2));
                    assert(ans@ + unescaped(v@.skip(i + 2)) =~= before + (seq![rest[1]] + unescaped(
                        rest.skip(2),
                    )));
                    i += 2;
                } else {
                    assert(v@.skip(i + 1) =~= Seq::<char>::empty());
                    assert(ans@ + unescaped(v@.skip(i + 1)) =~= before + Seq::<char>::empty());
                    i += 1;
                }
            } else {
                ans.push(v[i]);
                assert(rest.skip(1) =~= v@.skip(i + 1));
                assert(ans@ + unescaped(v@.skip(i + 1)) =~= before + (seq![rest[0]] + unescaped(
                    rest.skip(1),
                )));
                i += 1;
            }
        }
        assert(ans@ + Seq::<char>::empty() =~= ans@);
        from_chars(&ans)
    }

    /// Takes the argument with which the text begins: its pieces one after
    /// another, as long as there are any. There is always an argument, though
    /// it may be empty.
    pub fn parse(text: &mut Feeder, core: &mut ShellCore, expand_brace: bool) -> (r: Option<Arg>)
        requires
            old(text)@.wf(),
        ensures
            *final(core) == *old(core),
            r matches Some(arg) && final(text)@.took(old(text)@, arg.text@) && arg.text@
                == concat_texts(subword_views(arg.subargs@)) && arg.expand_brace == expand_brace
                && arg.pos.pos == old(text).pos,
            final(text)@.cursor() == arg_end(old(text)@.chars, old(text)@.cursor()),
    {
        let mut ans = Arg {
            text: String::new(),
            pos: DebugInfo::init(text),
            subargs: Vec::new(),
            expand_brace,
        };
        let ghost start = text@;
        assert(text@.consumed_since(start) =~= ans.text@);
        loop
            invariant_except_break
                arg_end(start.chars, text@.cursor()) == arg_end(start.chars, start.cursor()),
            invariant
                start == old(text)@,
                start.wf(),
                text@.follows(start),
                ans.text@ == text@.consumed_since(start),
                ans.text@ == concat_texts(subword_views(ans.subargs@)),
                ans.expand_brace == expand_brace,
                ans.pos.pos == old(text).pos,
                *core == *old(core),
            ensures
                arg_end(start.chars, start.cursor()) == text@.cursor(),
            decreases text@.left(),
        {
            let ghost before = text@;
            let ghost subs = subword_views(ans.subargs@);
            match crate::elements::subword::parse(text, core) {
                Some(result) => {
                    ans.text.append(result.text().as_str());
                    push_subword(&mut ans.subargs, result);
                    proof {
                        lemma_took_twice(start, before, text@);
                        assert(subword_views(ans.subargs@).drop_last() =~= subs);
                    }
                    if text.len() == 0 {
                        break ;
                    }
                },
                None => {
                    break ;
                },
            }
        }
        Some(ans)
    }
}

impl ElemOfCommand for Arg {
    open spec fn source(&self) -> Seq<char> {
        self.text@
    }

    fn parse_info(&self) -> (lines: Vec<String>)
        ensures
            lines@.len() == 1 + self.subargs@.len(),
            lines@[0]@ == "    arg      : '"@ + self.text@ + "' ("@ + self.pos.shown() + ")"@,
            forall|i: int|
                0 <= i < self.subargs@.len() ==> (#[trigger] lines@[i + 1])@
                    == "        subarg      : "@ + self.subargs@[i]@.text(),
    {
        let mut line = String::from_str("    arg      : '");
        line.append(self.text.as_str());
        line.append("' (");
        line.append(self.pos.text().as_str());
        line.append(")");
        let mut ans: Vec<String> = Vec::new();
        ans.push(line);
        let mut i: usize = 0;
        while i < self.subargs.len()
            invariant
                i <= self.subargs.len(),
                ans@.len() == 1 + i,
                ans@[0]@ == "    arg      : '"@ + self.text@ + "' ("@ + self.pos.shown() + ")"@,
                forall|k: int|
                    0 <= k < i ==> (#[trigger] ans@[k + 1])@ == "        subarg      : "@
                        + self.subargs@[k]@.text(),
            decreases self.subargs.len() - i,
        {
            let mut sub = String::from_str("        subarg      : ");
            sub.append(self.subargs[i].text().as_str());
            ans.push(sub);
            i += 1;
        }
        ans
    }

    fn eval(&mut self, conf: &mut ShellCore) -> (args: Vec<String>)
        ensures
            final(self).text == old(self).text,
            subword_views(final(self).subargs@) == subword_views(old(self).subargs@),
            views(args@) == arg_values(
                subword_views(old(self).subargs@),
                old(self).expand_brace,
                old(conf)@,
            ).0,
            final(conf)@ == arg_values(
                subword_views(old(self).subargs@),
                old(self).expand_brace,
                old(conf)@,
            ).1,
    {
        let fields = if self.expand_brace {
            let word = Word { text: join(&self.subargs), subwords: duplicate_subwords(&self.subargs) };
            word.expand(conf)
        } else {
            crate::elements::word::fields_of_list(&self.subargs, conf)
        };
        let mut out: Vec<String> = Vec::new();
        match fields {
            Some(list) => {
                let mut k: usize = 0;
                while k < list.len()
                    invariant
                        k <= list.len(),
                        out@.len() == k,
                        forall|j: int| 0 <= j < k ==> (#[trigger] out@[j])@ == list@[j]@.text,
                    decreases list.len() - k,
                {
                    out.push(list[k].text.clone());
                    k += 1;
                }
                assert(views(out@) =~= crate::elements::word::split::field_views(list@).map_values(
                    |x: FieldView| x.text,
                ));
                out
            },
            None => {
                assert(views(out@) =~= Seq::<Seq<char>>::empty());
                out
            },
        }
    }

    fn text(&self) -> (t: String) {
        self.text.clone()
    }
}

fn join(subargs: &Vec<Subword>) -> (t: String)
    ensures
        t@ == concat_texts(subword_views(subargs@)),
{
    crate::elements::subword::join_texts(subargs)
}

} // verus!
