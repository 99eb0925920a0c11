//! Words: the arguments of commands, made of subwords.

pub mod scanner;
pub mod parameter_expansion;
pub mod expansion;
pub mod split;
pub mod brace_expansion;
pub mod tilde_expansion;
pub mod read_again;

use vstd::prelude::*;
use crate::elements::grammar::slice;
use crate::elements::grammar::operand_piece_at;
use crate::elements::grammar::operand_pieces;
use crate::elements::grammar::operand_at;
use crate::elements::grammar::word_pieces;
use crate::elements::grammar::word_at;
use crate::elements::grammar::OperandEnd;
use crate::elements::grammar::ended;
use crate::elements::grammar::operand_end;
use crate::elements::grammar::operand_piece;
use crate::elements::grammar::operand_rest;
use crate::elements::grammar::word_rest;
use crate::elements::grammar::word_end;
use crate::elements::subword::Subword;
use crate::elements::subword::SubwordView;
use crate::elements::subword::subword_view;
use crate::elements::subword::unquoted::UnquotedSubword;
use crate::elements::subword::single_quoted::SingleQuotedSubword;
use crate::elements::subword::arithmetic::Arithmetic;
use crate::elements::subword::braced_param::BracedParam;
use crate::elements::subword::command::CommandSubstitution;
use crate::feeder::Feeder;
use crate::feeder::lemma_took_twice;
use crate::feeder::scanner::CharClass;
use crate::shell::ShellCore;
use crate::elements::subword::substitute_all;
use crate::elements::subword::unquote_all;
use crate::elements::subword::join_texts;
use crate::elements::word::parameter_expansion::expand_list;
use crate::elements::word::expansion::subwords_expanded;
use crate::elements::word::expansion::word_value;
use crate::elements::word::brace_expansion::brace_expanded;
use crate::elements::word::brace_expansion::lists_view;
use crate::elements::word::tilde_expansion::tilde_expanded;
use crate::elements::word::tilde_expansion::expand_tilde;
use crate::elements::word::split::Field;
use crate::elements::word::split::FieldView;
use crate::elements::word::split::field_views;
use crate::elements::word::split::fields_of;
use crate::elements::word::split::separators;
use crate::elements::word::split::separators_of;
use crate::elements::word::split::split;
use crate::shell::CoreView;
use crate::text::views;

verus! {

/// One word of a command line.
#[derive(Debug)]
pub struct Word {
    /// The source text of the word; after expansion, the expanded text.
    pub text: String,
    /// The pieces of the word, left to right.
    pub subwords: Vec<Subword>,
}

/// A word as plain mathematical data.
pub struct WordView {
    pub text: Seq<char>,
    pub subwords: Seq<SubwordView>,
}

/// The views of a list of subwords.
pub open spec fn subword_views(v: Seq<Subword>) -> Seq<SubwordView>
    decreases v,
{
    Seq::new(v.len(), |i: int| if 0 <= i < v.len() { subword_view(v[i]) } else { arbitrary() })
}

/// The view of a word.
pub open spec fn word_view(w: Word) -> WordView
    decreases w,
{
    WordView { text: w.text@, subwords: subword_views(w.subwords@) }
}

impl View for Word {
    type V = WordView;

    open spec fn view(&self) -> WordView {
        word_view(*self)
    }
}

impl Word {
    /// A copy of the word.
    pub fn duplicate(&self) -> (copy: Word)
        ensures
            copy@ == self@,
        decreases self,
    {
        Word { text: self.text.clone(), subwords: duplicate_subwords(&self.subwords) }
    }
}

/// A copy of a list of subwords.
pub fn duplicate_subwords(v: &Vec<Subword>) -> (copy: Vec<Subword>)
    ensures
        subword_views(copy@) == subword_views(v@),
    decreases v,
{
    let mut copy: Vec<Subword> = Vec::new();
    let mut i: usize = 0;
    while i < v.len()
        invariant
            i <= v.len(),
            copy@.len() == i,
            forall|k: int| 0 <= k < i ==> copy@[k]@ == v@[k]@,
        decreases v.len() - i,
    {
        copy.push(v[i].duplicate());
        i += 1;
    }
    assert(subword_views(copy@) =~= subword_views(v@));
    copy
}

/// The texts of the subwords, one after another.
pub open spec fn concat_texts(subs: Seq<SubwordView>) -> Seq<char>
    decreases subs.len(),
{
    if subs.len() == 0 {
        Seq::empty()
    } else {
        concat_texts(subs.drop_last()) + subs.last().text()
    }
}

impl WordView {
    /// The text of the word is the text of its subwords, of which there is at
    /// least one.
    pub open spec fn wf(self) -> bool {
        self.subwords.len() > 0 && self.text == concat_texts(self.subwords)
    }
}

/// Whether the last of the subwords is a `$`.
pub open spec fn dollar_last(subwords: Seq<SubwordView>) -> bool {
    subwords.len() > 0 && subwords.last() == SubwordView::Unquoted("$"@)
}

/// Whether the first of the subwords is unquoted.
pub open spec fn plain_first(subwords: Seq<SubwordView>) -> bool {
    subwords.len() > 0 && subwords[0] is Unquoted
}

/// Puts a subword at the end of a list.
pub fn push_subword(v: &mut Vec<Subword>, sw: Subword)
    ensures
        subword_views(final(v)@) == subword_views(old(v)@).push(sw@),
{
    v.push(sw);
    assert(subword_views(v@) =~= subword_views(old(v)@).push(sw@));
}

impl Word {
    /// A word without subwords.
    pub fn new() -> (w: Word)
        ensures
            w@.text.len() == 0,
            w@.subwords.len() == 0,
    {
        Word { text: String::new(), subwords: Vec::new() }
    }

    /// Puts a subword at the end of the word.
    pub fn push(&mut self, subword: Subword)
        ensures
            final(self)@.text == old(self)@.text + subword@.text(),
            final(self)@.subwords == old(self)@.subwords.push(subword@),
            old(self)@.text == concat_texts(old(self)@.subwords) ==> final(self)@.text
                == concat_texts(final(self)@.subwords),
    {
        let piece = subword.text();
        self.text.append(piece.as_str());
        push_subword(&mut self.subwords, subword);
        assert(self@.subwords.drop_last() =~= old(self)@.subwords);
    }

    /// Takes the word with which the text begins: its subwords, one after
    /// another, as long as there are any. A comment is no word. There is a
    /// word wherever the text begins with an unquoted or a single-quoted
    /// subword and with no `#`.
    pub fn parse(feeder: &mut Feeder, core: &mut ShellCore) -> (r: Option<Word>)
        requires
            old(feeder)@.wf(),
        ensures
            *final(core) == *old(core),
            word_end(old(feeder)@.chars, old(feeder)@.cursor()) == ended(
                r is Some,
                final(feeder)@,
            ),
            match r {
                Some(w) => final(feeder)@.took(old(feeder)@, w@.text) && w@.wf() && w@.text.len()
                    > 0 && !"#"@.is_prefix_of(old(feeder)@.remaining()) && w@ == word_at(
                    old(feeder)@.chars,
                    old(feeder)@.cursor(),
                ),
                None => final(feeder)@ == old(feeder)@ && ("#"@.is_prefix_of(
                    old(feeder)@.remaining(),
                ) || (crate::feeder::scanner::token_length(old(feeder)@.remaining()) == 0
                    && crate::feeder::scanner::single_quoted_length(old(feeder)@.remaining())
                    == 0)),
            },
        decreases old(feeder)@.left(), old(feeder)@.unfed(), 3nat,
    {
        proof {
            reveal(word_end);
            reveal(word_rest);
            reveal(word_pieces);
        }
        if feeder.starts_with("#") {
            return None;
        }
        let mut ans = Word::new();
        let ghost start = feeder@;
        assert(ans@.text =~= concat_texts(ans@.subwords));
        assert(ans@.subwords =~= Seq::<SubwordView>::empty());
        match crate::elements::subword::parse(feeder, core) {
            Some(sw) => {
                ans.push(sw);
                assert(ans@.text =~= feeder@.consumed_since(start));
                assert(ans@.subwords =~= Seq::<SubwordView>::empty().push(sw@));
            },
            None => {
                return None;
            },
        }
        loop
            invariant
                start == old(feeder)@,
                start.wf(),
                feeder@.follows(start),
                ans@.text == feeder@.consumed_since(start),
                ans@.text == concat_texts(ans@.subwords),
                ans@.subwords.len() > 0,
                ans@.text.len() > 0,
                *core == *old(core),
                word_end(start.chars, start.cursor()) == Some(
                    word_rest(start.chars, feeder@.cursor()),
                ),
                word_pieces(start.chars, feeder@.cursor(), ans@.subwords) == word_pieces(
                    start.chars,
                    start.cursor(),
                    Seq::empty(),
                ),
            ensures
                word_end(start.chars, start.cursor()) == Some(feeder@.cursor()),
                ans@.subwords == word_pieces(start.chars, start.cursor(), Seq::empty()),
            decreases feeder@.left(),
        {
            let ghost before = feeder@;
            proof {
                reveal(word_rest);
                reveal(word_pieces);
            }
            match crate::elements::subword::parse(feeder, core) {
                Some(sw) => {
                    proof {
                        lemma_took_twice(start, before, feeder@);
                    }
                    ans.push(sw);
                },
                None => {
                    break ;
                },
            }
        }
        Some(ans)
    }

    /// Takes the operand of arithmetic with which the text begins: a number,
    /// a name, a parameter, a quoted text or a substitution, or several of
    /// them in a row.
    pub fn parse_operand(feeder: &mut Feeder, core: &mut ShellCore) -> (r: Option<Word>)
        requires
            old(feeder)@.wf(),
        ensures
            *final(core) == *old(core),
            match r {
                Some(w) => final(feeder)@.took(old(feeder)@, w@.text) && w@.wf() && w@.text.len()
                    > 0,
                None => final(feeder)@ == old(feeder)@,
            },
            r matches Some(w) ==> w@ == operand_at(old(feeder)@.chars, old(feeder)@.cursor()),
            operand_end(old(feeder)@.chars, old(feeder)@.cursor()) == match r {
                Some(w) => Some(
                    OperandEnd {
                        c: final(feeder)@.cursor(),
                        count: w@.subwords.len(),
                        plain: plain_first(w@.subwords),
                    },
                ),
                None => None,
            },
        decreases old(feeder)@.left(), old(feeder)@.unfed(), 3nat,
    {
        proof {
            reveal(operand_end);
            reveal(operand_rest);
            reveal(operand_at);
            reveal(operand_pieces);
        }
        let mut ans = Word::new();
        let ghost start = feeder@;
        assert(feeder@.consumed_since(start) =~= ans@.text);
        assert(ans@.subwords =~= Seq::<SubwordView>::empty());
        loop
            invariant
                operand_rest(
                    start.chars,
                    feeder@.cursor(),
                    ans@.subwords.len(),
                    dollar_last(ans@.subwords),
                    plain_first(ans@.subwords),
                ) == operand_rest(start.chars, start.cursor(), 0, false, false),
                operand_pieces(start.chars, feeder@.cursor(), ans@.subwords) == operand_pieces(
                    start.chars,
                    start.cursor(),
                    Seq::empty(),
                ),
                start == old(feeder)@,
                start.wf(),
                feeder@.follows(start),
                ans@.text == feeder@.consumed_since(start),
                ans@.text == concat_texts(ans@.subwords),
                ans@.subwords.len() > 0 ==> ans@.text.len() > 0,
                ans@.subwords.len() == 0 ==> feeder@ == start,
                *core == *old(core),
            ensures
                operand_rest(start.chars, start.cursor(), 0, false, false) == (OperandEnd {
                    c: feeder@.cursor(),
                    count: ans@.subwords.len(),
                    plain: plain_first(ans@.subwords),
                }),
                ans@.subwords == operand_pieces(start.chars, start.cursor(), Seq::empty()),
            decreases feeder@.left(),
        {
            let ghost before = feeder@;
            let ghost subs = ans@.subwords;
            proof {
                reveal(operand_rest);
                reveal(operand_pieces);
                reveal(operand_piece);
                reveal(operand_piece_at);
                reveal_strlit("$");
            }
            let sw = if let Some(a) = SingleQuotedSubword::parse(feeder, core) {
                Subword::SingleQuoted(a)
            } else if let Some(a) = Arithmetic::parse(feeder, core) {
                Subword::Arithmetic(a)
            } else if let Some(a) = CommandSubstitution::parse(feeder, core) {
                Subword::Command(a)
            } else if let Some(a) = BracedParam::parse(feeder, core) {
                Subword::BracedParam(a)
            } else if feeder.starts_with("$") {
                let dollar = feeder.consume(1);
                assert(dollar@ =~= "$"@);
                Subword::Unquoted(UnquotedSubword { text: dollar })
            } else {
                let len = feeder.scan_while(0, CharClass::InOperand);
                if len > 0 {
                    let run = feeder.consume(len);
                    assert(run@ != "$"@) by {
                        if run@ == "$"@ {
                            assert(before.remaining().subrange(0, 1) =~= "$"@);
                        }
                    }
                    Subword::Unquoted(UnquotedSubword { text: run })
                } else if ans.subwords.len() > 0 && ans.subwords[ans.subwords.len() - 1].is_dollar()
                    && feeder.len() > 0 {
                    let one = feeder.consume(1);
                    assert(one@ != "$"@) by {
                        if one@ == "$"@ {
                            assert(before.remaining().subrange(0, 1) =~= "$"@);
                        }
                    }
                    Subword::Unquoted(UnquotedSubword { text: one })
                } else {
                    break ;
                }
            };
            proof {
                lemma_took_twice(start, before, feeder@);
                assert(operand_piece(start.chars, before.cursor(), dollar_last(subs)) == Some(
                    (feeder@.cursor(), sw@ is Unquoted),
                ));
                assert(sw@.text() == slice(start.chars, before.cursor(), Some(feeder@.cursor())));
                assert(sw@ == operand_piece_at(start.chars, before.cursor(), dollar_last(subs)));
                assert(sw@ == SubwordView::Unquoted("$"@) <==> (sw@ is Unquoted && "$"@.is_prefix_of(
                    before.remaining(),
                )));
            }
            ans.push(sw);
        }
        if ans.subwords.len() == 0 {
            None
        } else {
            Some(ans)
        }
    }
}

/// Expands a list of subwords: substitution, parameter expansion, quote
/// removal.
pub fn expand_subwords(subwords: &Vec<Subword>, core: &mut ShellCore) -> (r: Option<Vec<Subword>>)
    ensures
        final(core)@ == subwords_expanded(subword_views(subwords@), old(core)@).1,
        match subwords_expanded(subword_views(subwords@), old(core)@).0 {
            Some(done) => r matches Some(out) && subword_views(out@) == done,
            None => r is None,
        },
    decreases subwords, 1nat,
{
    match substitute_all(subwords, core) {
        Some(done) => {
            let e = expand_list(done, core);
            Some(unquote_all(&e))
        },
        None => None,
    }
}

impl Word {
    /// The text that the word stands for where it is not split. `None` where
    /// a substitution in it fails.
    pub fn eval_as_value(&self, core: &mut ShellCore) -> (r: Option<String>)
        ensures
            final(core)@ == word_value(self@, old(core)@).1,
            match word_value(self@, old(core)@).0 {
                Some(text) => r matches Some(out) && out@ == text,
                None => r is None,
            },
        decreases self,
    {
        match expand_subwords(&self.subwords, core) {
            Some(done) => Some(join_texts(&done)),
            None => None,
        }
    }

    /// Makes the text of the word that of its subwords.
    pub fn connect_text(&mut self)
        ensures
            final(self)@.subwords == old(self)@.subwords,
            final(self)@.text == concat_texts(old(self)@.subwords),
    {
        self.text = join_texts(&self.subwords);
    }

    /// Takes the quoting off the subwords.
    pub fn unquote(&mut self)
        ensures
            final(self)@.subwords == crate::elements::word::expansion::unquoted_all(
                old(self)@.subwords,
            ),
            final(self)@.text == old(self)@.text,
    {
        self.subwords = unquote_all(&self.subwords);
    }

    /// Expands the word in place: substitution, parameter expansion and quote
    /// removal on the subwords, whose texts then make the text of the word.
    /// Gives `false`, and leaves the word as it is, where a substitution fails.
    pub fn expansion(&mut self, core: &mut ShellCore) -> (ok: bool)
        ensures
            final(core)@ == subwords_expanded(old(self)@.subwords, old(core)@).1,
            match subwords_expanded(old(self)@.subwords, old(core)@).0 {
                Some(done) => ok && final(self)@ == (WordView {
                    text: concat_texts(done),
                    subwords: done,
                }),
                None => !ok && final(self)@ == old(self)@,
            },
    {
        match expand_subwords(&self.subwords, core) {
            Some(done) => {
                self.subwords = done;
                self.connect_text();
                true
            },
            None => false,
        }
    }

    /// The positions of the subwords with the text `s`.
    pub fn find(&self, s: &str) -> (found: Vec<usize>)
        ensures
            forall|k: int| 0 <= k < found@.len() ==> 0 <= #[trigger] found@[k] < self@.subwords.len()
                && self@.subwords[found@[k] as int].text() == s@,
            forall|i: int|
                0 <= i < self@.subwords.len() && self@.subwords[i].text() == s@ ==> found@.contains(
                    i as usize,
                ),
            forall|a: int, b: int| 0 <= a < b < found@.len() ==> found@[a] < found@[b],
    {
        let mut found: Vec<usize> = Vec::new();
        let mut i: usize = 0;
        while i < self.subwords.len()
            invariant
                i <= self.subwords.len(),
                forall|k: int| 0 <= k < found@.len() ==> 0 <= #[trigger] found@[k] < i
                    && self@.subwords[found@[k] as int].text() == s@,
                forall|j: int|
                    0 <= j < i && self@.subwords[j].text() == s@ ==> found@.contains(j as usize),
                forall|a: int, b: int| 0 <= a < b < found@.len() ==> found@[a] < found@[b],
            decreases self.subwords.len() - i,
        {
            let text = self.subwords[i].text();
            if crate::text::str_is(text.as_str(), s) {
                let ghost before = found@;
                found.push(i);
                assert forall|j: int|
                    0 <= j < i + 1 && self@.subwords[j].text() == s@ implies found@.contains(
                    j as usize,
                ) by {
                    if j < i {
                        let k = choose|k: int| 0 <= k < before.len() && before[k] == j as usize;
                        assert(found@[k] == j as usize);
                    } else {
                        assert(found@[found@.len() - 1] == i);
                    }
                }
            }
            i += 1;
        }
        found
    }
}

/// The fields that one list of subwords gives: tilde expansion, then
/// substitution, parameter expansion and quote removal, then splitting at the
/// separators that are in force after them. `None` where a substitution fails.
#[verifier::opaque]
pub open spec fn list_fields(subs: Seq<SubwordView>, st: CoreView) -> (
    Option<Seq<FieldView>>,
    CoreView,
) {
    let (done, after) = subwords_expanded(tilde_expanded(subs, st), st);
    match done {
        Some(e) => (Some(fields_of(e, separators(after))), after),
        None => (None, after),
    }
}

/// The fields of several lists of subwords, one list after another.
pub open spec fn lists_fields(lists: Seq<Seq<SubwordView>>, st: CoreView) -> (
    Option<Seq<FieldView>>,
    CoreView,
)
    decreases lists.len(),
{
    if lists.len() == 0 {
        (Some(Seq::empty()), st)
    } else {
        let (front, mid) = lists_fields(lists.drop_last(), st);
        match front {
            Some(done) => {
                let (last, after) = list_fields(lists.last(), mid);
                match last {
                    Some(fields) => (Some(done + fields), after),
                    None => (None, after),
                }
            },
            None => (None, mid),
        }
    }
}

/// The fields that a word stands for, and the state of the shell after its
/// expansion: brace expansion first, then the fields of each of the words
/// that it gives.
pub open spec fn word_fields(w: WordView, st: CoreView) -> (Option<Seq<FieldView>>, CoreView) {
    lists_fields(brace_expanded(w.subwords), st)
}

/// The expansion of a word depends on nothing but the word and the state of
/// the shell.
pub proof fn lemma_expansion_deterministic(a: Word, b: Word, s: ShellCore, t: ShellCore)
    requires
        a@ == b@,
        s@ == t@,
    ensures
        word_fields(a@, s@) == word_fields(b@, t@),
{
}

proof fn lemma_fields_fail(lists: Seq<Seq<SubwordView>>, n: int, st: CoreView)
    requires
        0 <= n <= lists.len(),
        lists_fields(lists.take(n), st).0 is None,
    ensures
        lists_fields(lists, st) == lists_fields(lists.take(n), st),
    decreases lists.len() - n,
{
    if n < lists.len() {
        assert(lists.take(n + 1).drop_last() =~= lists.take(n));
        lemma_fields_fail(lists, n + 1, st);
    } else {
        assert(lists.take(n) =~= lists);
    }
}

/// Moves the fields of `more` to the end of `out`.
fn append_fields(out: &mut Vec<Field>, more: &Vec<Field>)
    ensures
        field_views(final(out)@) == field_views(old(out)@) + field_views(more@),
{
    let ghost done = field_views(out@);
    let ghost added = field_views(more@);
    let mut k: usize = 0;
    assert(done + added.take(0) =~= done);
    while k < more.len()
        invariant
            k <= more.len(),
            added == field_views(more@),
            field_views(out@) == done + added.take(k as int),
        decreases more.len() - k,
    {
        let f = Field { text: more[k].text.clone(), pattern: more[k].pattern };
        assert(f@ == added[k as int]);
        let ghost before = field_views(out@);
        out.push(f);
        assert(field_views(out@) =~= before.push(f@));
        assert(done + added.take(k + 1) =~= (done + added.take(k as int)).push(added[k as int]));
        k += 1;
    }
    assert(added.take(k as int) =~= added);
}

/// The fields that one list of subwords gives.
pub fn fields_of_list(list: &Vec<Subword>, core: &mut ShellCore) -> (r: Option<Vec<Field>>)
    ensures
        final(core)@ == list_fields(subword_views(list@), old(core)@).1,
        match list_fields(subword_views(list@), old(core)@).0 {
            Some(fields) => r matches Some(out) && field_views(out@) == fields,
            None => r is None,
        },
{
    reveal(list_fields);
    let with_home = expand_tilde(list, core);
    match expand_subwords(&with_home, core) {
        Some(e) => {
            let seps = separators_of(core);
            Some(split(&e, &seps))
        },
        None => None,
    }
}

impl Word {
    /// Expands the word into fields.
    pub fn expand(&self, core: &mut ShellCore) -> (r: Option<Vec<Field>>)
        ensures
            final(core)@ == word_fields(self@, old(core)@).1,
            match word_fields(self@, old(core)@).0 {
                Some(fields) => r matches Some(out) && field_views(out@) == fields,
                None => r is None,
            },
    {
        let lists = crate::elements::word::brace_expansion::expand(&self.subwords);
        let ghost all = lists_view(lists@);
        let ghost start = old(core)@;
        let mut out: Vec<Field> = Vec::new();
        let mut i: usize = 0;
        assert(all.take(0) =~= Seq::<Seq<SubwordView>>::empty());
        assert(field_views(out@) =~= Seq::<FieldView>::empty());
        while i < lists.len()
            invariant
                i <= lists.len(),
                all == lists_view(lists@),
                all == brace_expanded(self@.subwords),
                start == old(core)@,
                lists_fields(all.take(i as int), start) == (Some(field_views(out@)), core@),
            decreases lists.len() - i,
        {
            proof {
                assert(all.take(i + 1).drop_last() =~= all.take(i as int));
                assert(all.take(i + 1).last() == subword_views(lists@[i as int]@));
            }
            let ghost mid = core@;
            match fields_of_list(&lists[i], core) {
                Some(fields) => {
                    append_fields(&mut out, &fields);
                },
                None => {
                    proof {
                        assert(list_fields(all.take(i + 1).last(), mid).0 is None);
                        assert(lists_fields(all.take(i + 1), start) == (
                            None::<Seq<FieldView>>,
                            core@,
                        ));
                        lemma_fields_fail(all, i + 1, start);
                    }
                    return None;
                },
            }
            i += 1;
        }
        assert(all.take(i as int) =~= all);
        Some(out)
    }

    /// Expands the word into the texts of its fields.
    pub fn eval(&mut self, core: &mut ShellCore) -> (r: Option<Vec<String>>)
        ensures
            final(self)@ == old(self)@,
            final(core)@ == word_fields(old(self)@, old(core)@).1,
            match word_fields(old(self)@, old(core)@).0 {
                Some(fields) => r matches Some(out) && views(out@) == fields.map_values(
                    |f: FieldView| f.text,
                ),
                None => r is None,
            },
    {
        match self.expand(core) {
            Some(fields) => {
                let mut out: Vec<String> = Vec::new();
                let mut k: usize = 0;
                while k < fields.len()
                    invariant
                        k <= fields.len(),
                        out@.len() == k,
                        forall|j: int| 0 <= j < k ==> (#[trigger] out@[j])@ == fields@[j]@.text,
                    decreases fields.len() - k,
                {
                    out.push(fields[k].text.clone());
                    k += 1;
                }
                assert(views(out@) =~= field_views(fields@).map_values(|f: FieldView| f.text));
                Some(out)
            },
            None => None,
        }
    }
}

} // verus!
