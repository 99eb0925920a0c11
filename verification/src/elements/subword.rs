//! Subwords: the classified fragments of a word.

pub mod unquoted;
pub mod single_quoted;
pub mod double_quoted;
pub mod braced_param;
pub mod arithmetic;
pub mod command;

use vstd::prelude::*;
use crate::elements::grammar::subword_at;
use crate::elements::grammar::arithmetic_end;
use crate::elements::grammar::braced_end;
use crate::elements::grammar::double_quoted_end;
use crate::elements::grammar::ended;
use crate::elements::grammar::substitution_end;
use crate::elements::grammar::subword_end;
use crate::elements::subword::unquoted::UnquotedSubword;
use crate::elements::subword::single_quoted::SingleQuotedSubword;
use crate::elements::subword::double_quoted::DoubleQuoted;
use crate::elements::subword::braced_param::BracedParam;
use crate::elements::subword::arithmetic::Arithmetic;
use crate::elements::subword::command::CommandSubstitution;
use crate::elements::expr::arithmetic::ExprView;
use crate::elements::expr::arithmetic::expr_view;
use crate::elements::word::duplicate_subwords;
use crate::elements::word::subword_views;
use crate::feeder::Feeder;
use crate::shell::ShellCore;
use crate::text::str_is;
use crate::text::to_chars;
use crate::text::substring;
use crate::elements::word::concat_texts;
use crate::elements::word::push_subword;
use crate::elements::word::parameter_expansion::expand_list;
use crate::elements::word::expansion::subword_substituted;
use crate::elements::word::expansion::subwords_substituted;
use crate::elements::word::expansion::unquoted;
use crate::elements::word::expansion::unquoted_inside;
use crate::elements::word::expansion::unquoted_all;

verus! {

/// A fragment of a word together with its quoting context.
#[derive(Debug)]
pub enum Subword {
    /// A run of ordinary characters, a one-character symbol such as `$` or
    /// `{`, or a character escaped with a backslash.
    Unquoted(UnquotedSubword),
    /// `'...'`.
    SingleQuoted(SingleQuotedSubword),
    /// `"..."`, with the subwords between the quotes.
    DoubleQuoted(DoubleQuoted),
    /// `${...}`.
    BracedParam(BracedParam),
    /// `$(( ... ))`.
    Arithmetic(Arithmetic),
    /// `$( ... )`.
    Command(CommandSubstitution),
    /// What took the place of a `$` and the name behind it: the value of the
    /// parameter.
    Parameter(Parameter),
}

/// The value of a parameter, put where the parameter stood.
#[derive(Debug)]
pub struct Parameter {
    pub text: String,
}

/// A subword as plain mathematical data: its text, and what it holds.
pub enum SubwordView {
    Unquoted(Seq<char>),
    SingleQuoted(Seq<char>),
    DoubleQuoted(Seq<char>, Seq<SubwordView>),
    BracedParam(Seq<char>, Seq<SubwordView>),
    Arithmetic(Seq<char>, ExprView),
    /// The text, and the output of the command once it has run.
    Command(Seq<char>, Option<Seq<char>>),
    Parameter(Seq<char>),
}

impl SubwordView {
    /// The text of the subword.
    pub open spec fn text(self) -> Seq<char> {
        match self {
            SubwordView::Unquoted(t) => t,
            SubwordView::SingleQuoted(t) => t,
            SubwordView::DoubleQuoted(t, _) => t,
            SubwordView::BracedParam(t, _) => t,
            SubwordView::Arithmetic(t, _) => t,
            SubwordView::Command(t, _) => t,
            SubwordView::Parameter(t) => t,
        }
    }
}

/// The view of a subword.
pub open spec fn subword_view(sw: Subword) -> SubwordView
    decreases sw,
{
    match sw {
        Subword::Unquoted(s) => SubwordView::Unquoted(s.text@),
        Subword::SingleQuoted(s) => SubwordView::SingleQuoted(s.text@),
        Subword::DoubleQuoted(s) => SubwordView::DoubleQuoted(s.text@, subword_views(s.subwords@)),
        Subword::BracedParam(s) => SubwordView::BracedParam(s.text@, subword_views(s.subwords@)),
        Subword::Arithmetic(s) => SubwordView::Arithmetic(s.text@, expr_view(s.expr)),
        Subword::Command(s) => SubwordView::Command(
            s.text@,
            match s.output {
                Some(out) => Some(out@),
                None => None,
            },
        ),
        Subword::Parameter(s) => SubwordView::Parameter(s.text@),
    }
}

impl View for Subword {
    type V = SubwordView;

    open spec fn view(&self) -> SubwordView {
        subword_view(*self)
    }
}

impl Subword {
    /// A copy of the subword.
    pub fn duplicate(&self) -> (copy: Subword)
        ensures
            copy@ == self@,
        decreases self,
    {
        match self {
            Subword::Unquoted(s) => Subword::Unquoted(UnquotedSubword { text: s.text.clone() }),
            Subword::SingleQuoted(s) => Subword::SingleQuoted(
                SingleQuotedSubword { text: s.text.clone() },
            ),
            Subword::DoubleQuoted(s) => Subword::DoubleQuoted(
                DoubleQuoted { text: s.text.clone(), subwords: duplicate_subwords(&s.subwords) },
            ),
            Subword::BracedParam(s) => Subword::BracedParam(
                BracedParam { text: s.text.clone(), subwords: duplicate_subwords(&s.subwords) },
            ),
            Subword::Arithmetic(s) => Subword::Arithmetic(
                Arithmetic { text: s.text.clone(), expr: s.expr.duplicate() },
            ),
            Subword::Command(s) => Subword::Command(
                CommandSubstitution {
                    text: s.text.clone(),
                    output: match &s.output {
                        Some(out) => Some(out.clone()),
                        None => None,
                    },
                },
            ),
            Subword::Parameter(s) => Subword::Parameter(Parameter { text: s.text.clone() }),
        }
    }
}

impl Subword {
    /// The text of the subword.
    pub fn text(&self) -> (t: String)
        ensures
            t@ == self@.text(),
    {
        match self {
            Subword::Unquoted(s) => s.text.clone(),
            Subword::SingleQuoted(s) => s.text.clone(),
            Subword::DoubleQuoted(s) => s.text.clone(),
            Subword::BracedParam(s) => s.text.clone(),
            Subword::Arithmetic(s) => s.text.clone(),
            Subword::Command(s) => s.text.clone(),
            Subword::Parameter(s) => s.text.clone(),
        }
    }

    /// Whether this is the unquoted subword with the given text.
    pub fn is_symbol(&self, symbol: &str) -> (b: bool)
        ensures
            b == (self@ == SubwordView::Unquoted(symbol@)),
    {
        match self {
            Subword::Unquoted(s) => str_is(s.text.as_str(), symbol),
            _ => false,
        }
    }

    /// Whether this is an unquoted subword.
    pub fn is_plain(&self) -> (b: bool)
        ensures
            b == (self@ is Unquoted),
    {
        match self {
            Subword::Unquoted(_) => true,
            _ => false,
        }
    }

    /// Whether this is the symbol `$`.
    pub fn is_dollar(&self) -> (b: bool)
        ensures
            b == (self@ == SubwordView::Unquoted("$"@)),
    {
        self.is_symbol("$")
    }
}

/// Takes the subword with which the text begins. The kinds are tried in this
/// order: single-quoted, double-quoted, arithmetic substitution, command
/// substitution, parameter in braces, unquoted.
pub fn parse(feeder: &mut Feeder, core: &mut ShellCore) -> (r: Option<Subword>)
    requires
        old(feeder)@.wf(),
    ensures
        *final(core) == *old(core),
        subword_end(old(feeder)@.chars, old(feeder)@.cursor()) == ended(
                r is Some,
                final(feeder)@,
            ),
        match r {
            Some(sw) => final(feeder)@.took(old(feeder)@, sw@.text()) && sw@.text().len() > 0
                && old(feeder)@.remaining().len() > 0 && sw@ == subword_at(
                old(feeder)@.chars,
                old(feeder)@.cursor(),
            ),
            None => final(feeder)@ == old(feeder)@ && crate::feeder::scanner::token_length(
                old(feeder)@.remaining(),
            ) == 0 && crate::feeder::scanner::single_quoted_length(old(feeder)@.remaining()) == 0,
        },
    decreases old(feeder)@.left(), old(feeder)@.unfed(), 2nat,
{
    proof {
        reveal(subword_end);
        reveal(subword_at);
        reveal(double_quoted_end);
        reveal(arithmetic_end);
        reveal(substitution_end);
        reveal(braced_end);
    }
    if let Some(a) = SingleQuotedSubword::parse(feeder, core) {
        return Some(Subword::SingleQuoted(a));
    }
    if let Some(a) = DoubleQuoted::parse(feeder, core) {
        return Some(Subword::DoubleQuoted(a));
    }
    if let Some(a) = Arithmetic::parse(feeder, core) {
        let sw = Subword::Arithmetic(a);
        assert(sw@.text() == a.text@);
        return Some(sw);
    }
    if let Some(a) = CommandSubstitution::parse(feeder, core) {
        return Some(Subword::Command(a));
    }
    if let Some(a) = BracedParam::parse(feeder, core) {
        return Some(Subword::BracedParam(a));
    }
    if let Some(a) = UnquotedSubword::parse(feeder, core) {
        return Some(Subword::Unquoted(a));
    }
    None
}

/// Joins the texts of the subwords.
pub fn join_texts(subwords: &Vec<Subword>) -> (text: String)
    ensures
        text@ == concat_texts(subword_views(subwords@)),
{
    let mut text = String::new();
    let mut i: usize = 0;
    let ghost subs = subword_views(subwords@);
    assert(subs.take(0) =~= Seq::<SubwordView>::empty());
    while i < subwords.len()
        invariant
            i <= subwords.len(),
            subs == subword_views(subwords@),
            text@ == concat_texts(subs.take(i as int)),
        decreases subwords.len() - i,
    {
        let piece = subwords[i].text();
        text.append(piece.as_str());
        assert(subs.take(i + 1).drop_last() =~= subs.take(i as int));
        i += 1;
    }
    assert(subs.take(i as int) =~= subs);
    text
}

/// Carries out the substitutions inside the subwords, from left to right.
/// `None` where one of them fails; the state then is that after the failure.
pub fn substitute_all(subwords: &Vec<Subword>, core: &mut ShellCore) -> (r: Option<Vec<Subword>>)
    ensures
        final(core)@ == subwords_substituted(subword_views(subwords@), old(core)@).1,
        match subwords_substituted(subword_views(subwords@), old(core)@).0 {
            Some(done) => r matches Some(out) && subword_views(out@) == done,
            None => r is None,
        },
    decreases subwords, 0nat,
{
    let mut out: Vec<Subword> = Vec::new();
    let mut i: usize = 0;
    let ghost subs = subword_views(subwords@);
    let ghost start = old(core)@;
    assert(subs.take(0) =~= Seq::<SubwordView>::empty());
    assert(subword_views(out@) =~= Seq::<SubwordView>::empty());
    while i < subwords.len()
        invariant
            i <= subwords.len(),
            subs == subword_views(subwords@),
            start == old(core)@,
            subwords_substituted(subs.take(i as int), start) == (Some(subword_views(out@)), core@),
        decreases subwords.len() - i,
    {
        proof {
            assert(subs.take(i + 1).drop_last() =~= subs.take(i as int));
            assert(subs.take(i + 1).last() == subwords@[i as int]@);
        }
        let ghost mid = core@;
        match subwords[i].substitute(core) {
            Some(sw) => {
                push_subword(&mut out, sw);
            },
            None => {
                proof {
                    assert(subword_substituted(subs.take(i + 1).last(), mid).0 is None);
                    assert(subwords_substituted(subs.take(i + 1), start) == (
                        None::<Seq<SubwordView>>,
                        core@,
                    ));
                    lemma_substitution_fails(subs, i + 1, start);
                }
                return None;
            },
        }
        i += 1;
    }
    assert(subs.take(i as int) =~= subs);
    Some(out)
}

/// Once the substitution has failed on the first subwords, it fails on all.
proof fn lemma_substitution_fails(subs: Seq<SubwordView>, n: int, st: crate::shell::CoreView)
    requires
        0 <= n <= subs.len(),
        subwords_substituted(subs.take(n), st).0 is None,
    ensures
        subwords_substituted(subs, st) == subwords_substituted(subs.take(n), st),
    decreases subs.len() - n,
{
    if n < subs.len() {
        assert(subs.take(n + 1).drop_last() =~= subs.take(n));
        lemma_substitution_fails(subs, n + 1, st);
    } else {
        assert(subs.take(n) =~= subs);
    }
}

impl Subword {
    /// Carries out the substitutions inside the subword. `None` where one of
    /// them fails.
    pub fn substitute(&self, core: &mut ShellCore) -> (r: Option<Subword>)
        ensures
            final(core)@ == subword_substituted(self@, old(core)@).1,
            match subword_substituted(self@, old(core)@).0 {
                Some(sw) => r matches Some(out) && out@ == sw,
                None => r is None,
            },
        decreases self,
    {
        match self {
            Subword::BracedParam(s) => {
                let chars = to_chars(s.text.as_str());
                let body = if chars.len() >= 3 {
                    substring(&chars, 2, chars.len() - 1)
                } else {
                    String::new()
                };
                match crate::elements::subword::braced_param::braced(body.as_str(), core) {
                    Some(text) => Some(Subword::Parameter(Parameter { text })),
                    None => None,
                }
            },
            Subword::Arithmetic(s) => {
                match s.expr.eval(core) {
                    Ok(text) => Some(Subword::Parameter(Parameter { text })),
                    Err(_) => None,
                }
            },
            Subword::Command(s) => match &s.output {
                Some(out) => Some(Subword::Parameter(Parameter { text: out.clone() })),
                None => None,
            },
            Subword::DoubleQuoted(s) => {
                match substitute_all(&s.subwords, core) {
                    Some(done) => {
                        let subwords = expand_list(done, core);
                        let mut text = String::new();
                        text.push('"');
                        text.append(join_texts(&subwords).as_str());
                        text.push('"');
                        proof {
                            let e = subword_views(subwords@);
                            assert(text@ =~= seq!['"'] + concat_texts(e) + seq!['"']);
                        }
                        Some(Subword::DoubleQuoted(DoubleQuoted { text, subwords }))
                    },
                    None => None,
                }
            },
            _ => Some(self.duplicate()),
        }
    }

    /// The subword as it stands between double quotes, without its quoting.
    fn unquote_inside(&self) -> (out: Subword)
        ensures
            out@ == unquoted_inside(self@),
    {
        match self {
            Subword::Unquoted(s) => {
                let chars = to_chars(s.text.as_str());
                if chars.len() == 2 && chars[0] == '\\' && (chars[1] == '$' || chars[1] == '"'
                    || chars[1] == '\\' || chars[1] == '`') {
                    let text = substring(&chars, 1, 2);
                    assert(text@ =~= s.text@.skip(1));
                    Subword::Unquoted(UnquotedSubword { text })
                } else {
                    self.duplicate()
                }
            },
            _ => self.duplicate(),
        }
    }

    /// The subword without its quoting.
    pub fn unquote(&self) -> (out: Subword)
        ensures
            out@ == unquoted(self@),
    {
        match self {
            Subword::Unquoted(s) => {
                let chars = to_chars(s.text.as_str());
                if chars.len() == 2 && chars[0] == '\\' {
                    let text = substring(&chars, 1, 2);
                    assert(text@ =~= s.text@.skip(1));
                    Subword::SingleQuoted(SingleQuotedSubword { text })
                } else {
                    self.duplicate()
                }
            },
            Subword::SingleQuoted(s) => {
                let chars = to_chars(s.text.as_str());
                if chars.len() >= 2 {
                    Subword::SingleQuoted(
                        SingleQuotedSubword { text: substring(&chars, 1, chars.len() - 1) },
                    )
                } else {
                    self.duplicate()
                }
            },
            Subword::DoubleQuoted(s) => {
                let mut inner: Vec<Subword> = Vec::new();
                let mut i: usize = 0;
                let ghost subs = subword_views(s.subwords@);
                while i < s.subwords.len()
                    invariant
                        i <= s.subwords.len(),
                        inner@.len() == i,
                        subs == subword_views(s.subwords@),
                        forall|k: int| 0 <= k < i ==> (#[trigger] inner@[k])@ == unquoted_inside(subs[k]),
                    decreases s.subwords.len() - i,
                {
                    inner.push(s.subwords[i].unquote_inside());
                    i += 1;
                }
                assert(subword_views(inner@) =~= subs.map_values(
                    |s: SubwordView| unquoted_inside(s),
                ));
                let text = join_texts(&inner);
                Subword::DoubleQuoted(DoubleQuoted { text, subwords: inner })
            },
            _ => self.duplicate(),
        }
    }
}

/// Takes the quoting off all subwords.
pub fn unquote_all(subwords: &Vec<Subword>) -> (out: Vec<Subword>)
    ensures
        subword_views(out@) == unquoted_all(subword_views(subwords@)),
{
    let mut out: Vec<Subword> = Vec::new();
    let mut i: usize = 0;
    while i < subwords.len()
        invariant
            i <= subwords.len(),
            out@.len() == i,
            forall|k: int| 0 <= k < i ==> (#[trigger] out@[k])@ == unquoted(subwords@[k]@),
        decreases subwords.len() - i,
    {
        out.push(subwords[i].unquote());
        i += 1;
    }
    assert(subword_views(out@) =~= unquoted_all(subword_views(subwords@)));
    out
}

} // verus!
