//! Word splitting: the expanded subwords of a word are cut into fields at
//! the separators of `IFS`. Only what parameter expansion put in is cut;
//! what was written in the word, quoted or not, is not.

use vstd::prelude::*;
use crate::elements::subword::Subword;
use crate::elements::subword::SubwordView;
use crate::elements::word::subword_views;
use crate::shell::CoreView;
use crate::shell::ShellCore;
use crate::text::to_chars;
use crate::text::from_chars;

verus! {

/// One field that a word gives after splitting.
#[derive(Debug)]
pub struct Field {
    pub text: String,
    /// Whether the field holds an unquoted `*`, `?` or `[`, so that it is a
    /// pattern for pathname expansion.
    pub pattern: bool,
}

/// A field as plain mathematical data.
pub struct FieldView {
    pub text: Seq<char>,
    pub pattern: bool,
}

impl View for Field {
    type V = FieldView;

    open spec fn view(&self) -> FieldView {
        FieldView { text: self.text@, pattern: self.pattern }
    }
}

/// The views of a list of fields.
pub open spec fn field_views(v: Seq<Field>) -> Seq<FieldView> {
    v.map_values(|f: Field| f@)
}

/// The fields that are complete and the field that is being filled, if one
/// is.
pub struct Splitter {
    pub fields: Seq<FieldView>,
    pub cur: Option<FieldView>,
}

/// The separators: the characters of `IFS`, or space, tab and newline where
/// `IFS` is not set.
pub open spec fn separators(st: CoreView) -> Seq<char> {
    match st.stored("IFS"@) {
        Some(ifs) => ifs,
        None => seq![' ', '\t', '\n'],
    }
}

pub open spec fn glob_char(c: char) -> bool {
    c == '*' || c == '?' || c == '['
}

impl Splitter {
    /// The field being filled is complete.
    pub open spec fn close(self) -> Splitter {
        match self.cur {
            Some(f) => Splitter { fields: self.fields.push(f), cur: None },
            None => self,
        }
    }

    /// One more character for the field being filled; a field is begun where
    /// none is being filled.
    pub open spec fn put(self, c: char, unquoted: bool) -> Splitter {
        let f = match self.cur {
            Some(f) => f,
            None => FieldView { text: Seq::empty(), pattern: false },
        };
        Splitter {
            fields: self.fields,
            cur: Some(
                FieldView { text: f.text.push(c), pattern: f.pattern || (unquoted && glob_char(c)) },
            ),
        }
    }

    /// A field is begun where none is being filled.
    pub open spec fn open(self) -> Splitter {
        match self.cur {
            Some(_) => self,
            None => Splitter {
                fields: self.fields,
                cur: Some(FieldView { text: Seq::empty(), pattern: false }),
            },
        }
    }
}

/// The characters `t[k..]` go into the fields. Where `cut` holds, a separator
/// ends the field being filled and is dropped; else every character is kept.
pub open spec fn put_text(s: Splitter, t: Seq<char>, k: int, cut: bool, unquoted: bool, seps: Seq<char>) -> Splitter
    decreases t.len() - k,
{
    if k < 0 || k >= t.len() {
        s
    } else if cut && seps.contains(t[k]) {
        put_text(s.close(), t, k + 1, cut, unquoted, seps)
    } else {
        put_text(s.put(t[k], unquoted), t, k + 1, cut, unquoted, seps)
    }
}

/// One subword goes into the fields. The value of a parameter is cut at the
/// separators, and an empty value leaves no trace; any other subword belongs
/// to one field, which it begins even where it is empty. Glob characters
/// count where they are not quoted.
pub open spec fn put_subword(s: Splitter, sw: SubwordView, seps: Seq<char>) -> Splitter {
    match sw {
        SubwordView::Parameter(t) => put_text(s, t, 0, true, true, seps),
        SubwordView::Unquoted(t) => put_text(s.open(), t, 0, false, true, seps),
        _ => put_text(s.open(), sw.text(), 0, false, false, seps),
    }
}

/// The subwords from `i` on go into the fields.
pub open spec fn put_subwords(s: Splitter, subs: Seq<SubwordView>, i: int, seps: Seq<char>) -> Splitter
    decreases subs.len() - i,
{
    if i < 0 || i >= subs.len() {
        s
    } else {
        put_subwords(put_subword(s, subs[i], seps), subs, i + 1, seps)
    }
}

/// The fields of a word whose subwords are expanded.
pub open spec fn fields_of(subs: Seq<SubwordView>, seps: Seq<char>) -> Seq<FieldView> {
    put_subwords(Splitter { fields: Seq::empty(), cur: None }, subs, 0, seps).close().fields
}

/// What the executable code holds of the splitter.
spec fn splitter_of(fields: Seq<Field>, cur: Option<(Seq<char>, bool)>) -> Splitter {
    Splitter {
        fields: field_views(fields),
        cur: match cur {
            Some((text, pattern)) => Some(FieldView { text, pattern }),
            None => None,
        },
    }
}

fn close_field(fields: &mut Vec<Field>, cur: &mut Option<(Vec<char>, bool)>)
    ensures
        splitter_of(final(fields)@, cur_view(*final(cur))) == splitter_of(
            old(fields)@,
            cur_view(*old(cur)),
        ).close(),
{
    let mut taken: Option<(Vec<char>, bool)> = None;
    std::mem::swap(&mut taken, cur);
    match taken {
        Some((text, pattern)) => {
            let f = Field { text: from_chars(&text), pattern };
            fields.push(f);
            assert(field_views(fields@) =~= field_views(old(fields)@).push(f@));
        },
        None => {},
    }
}

spec fn cur_view(cur: Option<(Vec<char>, bool)>) -> Option<(Seq<char>, bool)> {
    match cur {
        Some((text, pattern)) => Some((text@, pattern)),
        None => None,
    }
}

fn put_chars(
    fields: &mut Vec<Field>,
    cur: &mut Option<(Vec<char>, bool)>,
    t: &Vec<char>,
    cut: bool,
    unquoted: bool,
    seps: &Vec<char>,
)
    ensures
        splitter_of(final(fields)@, cur_view(*final(cur))) == put_text(
            splitter_of(old(fields)@, cur_view(*old(cur))),
            t@,
            0,
            cut,
            unquoted,
            seps@,
        ),
{
    let mut k: usize = 0;
    let ghost goal = put_text(
        splitter_of(fields@, cur_view(*cur)),
        t@,
        0,
        cut,
        unquoted,
        seps@,
    );
    while k < t.len()
        invariant
            k <= t.len(),
            put_text(splitter_of(fields@, cur_view(*cur)), t@, k as int, cut, unquoted, seps@)
                == goal,
        decreases t.len() - k,
    {
        let c = t[k];
        if cut && crate::text::find_char(seps, c).is_some() {
            close_field(fields, cur);
        } else {
            let ghost before = splitter_of(fields@, cur_view(*cur));
            let mut taken: Option<(Vec<char>, bool)> = None;
            std::mem::swap(&mut taken, cur);
            let (mut text, pattern) = match taken {
                Some(f) => f,
                None => (Vec::new(), false),
            };
            text.push(c);
            let glob = unquoted && (c == '*' || c == '?' || c == '[');
            *cur = Some((text, pattern || glob));
            assert(splitter_of(fields@, cur_view(*cur)) == before.put(c, unquoted));
        }
        k += 1;
    }
}

fn open_field(cur: &mut Option<(Vec<char>, bool)>)
    ensures
        forall|fields: Seq<Field>|
            splitter_of(fields, cur_view(*final(cur))) == (#[trigger] splitter_of(
                fields,
                cur_view(*old(cur)),
            )).open(),
{
    if cur.is_none() {
        *cur = Some((Vec::new(), false));
    }
}

/// Cuts the expanded subwords of a word into fields at the separators.
pub fn split(subwords: &Vec<Subword>, seps: &Vec<char>) -> (fields: Vec<Field>)
    ensures
        field_views(fields@) == fields_of(subword_views(subwords@), seps@),
{
    let mut fields: Vec<Field> = Vec::new();
    let mut cur: Option<(Vec<char>, bool)> = None;
    let ghost subs = subword_views(subwords@);
    let ghost goal = put_subwords(Splitter { fields: Seq::empty(), cur: None }, subs, 0, seps@);
    assert(field_views(fields@) =~= Seq::<FieldView>::empty());
    let mut i: usize = 0;
    while i < subwords.len()
        invariant
            i <= subwords.len(),
            subs == subword_views(subwords@),
            put_subwords(splitter_of(fields@, cur_view(cur)), subs, i as int, seps@) == goal,
        decreases subwords.len() - i,
    {
        let text = to_chars(subwords[i].text().as_str());
        let ghost before = splitter_of(fields@, cur_view(cur));
        match &subwords[i] {
            Subword::Parameter(_) => {
                put_chars(&mut fields, &mut cur, &text, true, true, seps);
            },
            Subword::Unquoted(_) => {
                open_field(&mut cur);
                assert(splitter_of(fields@, cur_view(cur)) == before.open());
                put_chars(&mut fields, &mut cur, &text, false, true, seps);
            },
            _ => {
                open_field(&mut cur);
                assert(splitter_of(fields@, cur_view(cur)) == before.open());
                put_chars(&mut fields, &mut cur, &text, false, false, seps);
            },
        }
        assert(splitter_of(fields@, cur_view(cur)) == put_subword(before, subs[i as int], seps@));
        i += 1;
    }
    close_field(&mut fields, &mut cur);
    fields
}

/// The separators of the shell.
pub fn separators_of(core: &ShellCore) -> (seps: Vec<char>)
    ensures
        seps@ == separators(core@),
{
    if core.is_set("IFS") {
        to_chars(core.get_var_ref("IFS"))
    } else {
        let mut seps: Vec<char> = Vec::new();
        seps.push(' ');
        seps.push('\t');
        seps.push('\n');
        assert(seps@ =~= seq![' ', '\t', '\n']);
        seps
    }
}

} // verus!
