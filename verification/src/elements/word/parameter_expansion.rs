//! Parameter expansion on the subwords of a word: a `$` and the name behind
//! it give way to the value of the parameter.

use vstd::prelude::*;
use crate::elements::subword::Parameter;
use crate::elements::subword::Subword;
use crate::elements::subword::SubwordView;
use crate::elements::word::Word;
use crate::elements::word::subword_views;
use crate::elements::word::scanner::name;
use crate::feeder::scanner::name_length;
use crate::shell::CoreView;
use crate::shell::ShellCore;
use crate::text::digit;
use crate::text::substring;
use crate::text::to_chars;

verus! {

/// The characters that name a special parameter.
pub open spec fn special_char(c: char) -> bool {
    c == '?' || c == '#' || c == '@' || c == '*' || c == '$' || c == '!' || c == '-' || digit(c)
}

/// 1 where `s` begins with the name of a special parameter, else 0.
pub open spec fn special_length(s: Seq<char>) -> nat {
    if s.len() > 0 && special_char(s[0]) {
        1
    } else {
        0
    }
}

/// 1 where `s` begins with the name of a special parameter, else 0.
pub fn special_param(s: &str) -> (n: usize)
    ensures
        n == special_length(s@),
        n <= s@.len(),
{
    let v = to_chars(s);
    if v.len() == 0 {
        return 0;
    }
    let c = v[0];
    if c == '?' || c == '#' || c == '@' || c == '*' || c == '$' || c == '!' || c == '-' || ('0'
        <= c && c <= '9') {
        1
    } else {
        0
    }
}

/// The length of the name with which `s` begins.
pub fn param_name(s: &str) -> (n: usize)
    ensures
        n == name_length(s@),
        n <= s@.len(),
{
    name(s)
}

/// How much of the text of a subword belongs to the name of a parameter,
/// where `named` says whether a part of the name stands before it: the name
/// with which an unquoted text begins, or, where nothing stands before it, the
/// name of a special parameter.
pub open spec fn name_part(sw: SubwordView, named: bool) -> nat {
    match sw {
        SubwordView::Unquoted(text) => if name_length(text) > 0 {
            name_length(text)
        } else if !named {
            special_length(text)
        } else {
            0
        },
        _ => 0,
    }
}

/// The parameter that the subwords from `k` on name, where `name` is the part
/// of the name before `k`: the index behind the last subword that belongs to
/// it, and what takes its place. A subword that belongs to the name only with
/// its beginning ends the name, and its rest follows the value.
pub open spec fn tail_from(subs: Seq<SubwordView>, k: int, name: Seq<char>, st: CoreView) -> (
    int,
    Seq<char>,
)
    decreases subs.len() - k,
{
    if k < 0 || k >= subs.len() {
        (k, st.value_of(name))
    } else {
        let text = subs[k].text();
        let n = name_part(subs[k], name.len() > 0);
        if n == 0 {
            (k, st.value_of(name))
        } else if n != text.len() {
            (k + 1, st.value_of(name + text.take(n as int)) + text.skip(n as int))
        } else {
            tail_from(subs, k + 1, name + text, st)
        }
    }
}

/// The parameter in braces that the subwords from `from` on name, of which
/// the first is the opening brace: the index behind the closing brace and the
/// value of the name between the braces. Without a closing brace: `from` and
/// the empty text.
pub open spec fn tail_brace(subs: Seq<SubwordView>, from: int, k: int, name: Seq<char>, st: CoreView) -> (
    int,
    Seq<char>,
)
    decreases subs.len() - k,
{
    if k < 0 || k >= subs.len() {
        (from, Seq::empty())
    } else if subs[k].text() == "}"@ {
        (k + 1, st.value_of(name))
    } else {
        tail_brace(subs, from, k + 1, name + subs[k].text(), st)
    }
}

/// The parameter that stands behind a `$`, where the subwords from `from` on
/// follow the `$`: the index behind its last subword, which is `from` where
/// there is no parameter, and what takes its place.
pub open spec fn tail(subs: Seq<SubwordView>, from: int, st: CoreView) -> (int, Seq<char>) {
    if from >= subs.len() {
        (from, Seq::empty())
    } else if subs[from].text() == "{"@ {
        tail_brace(subs, from, from + 1, Seq::empty(), st)
    } else {
        tail_from(subs, from, Seq::empty(), st)
    }
}

/// The subwords after the parameter at `i..to` gave way to `val`: the first
/// of them holds the value, the others are empty.
pub open spec fn replaced(subs: Seq<SubwordView>, i: int, to: int, val: Seq<char>) -> Seq<SubwordView> {
    Seq::new(
        subs.len(),
        |k: int|
            if k == i {
                SubwordView::Parameter(val)
            } else if i < k < to {
                SubwordView::Parameter(Seq::empty())
            } else {
                subs[k]
            },
    )
}

/// Parameter expansion from the subword `i` on, left to right: where a `$`
/// is followed by a parameter, both give way to the value, and the expansion
/// goes on behind them.
pub open spec fn expanded_from(subs: Seq<SubwordView>, i: int, st: CoreView) -> Seq<SubwordView>
    decreases subs.len() - i,
{
    if i < 0 || i >= subs.len() {
        subs
    } else if subs[i] == SubwordView::Unquoted("$"@) {
        let (to, val) = tail(subs, i + 1, st);
        if i + 1 < to <= subs.len() {
            expanded_from(replaced(subs, i, to, val), to, st)
        } else {
            expanded_from(subs, i + 1, st)
        }
    } else {
        expanded_from(subs, i + 1, st)
    }
}

/// Parameter expansion on all subwords.
pub open spec fn expanded(subs: Seq<SubwordView>, st: CoreView) -> Seq<SubwordView> {
    expanded_from(subs, 0, st)
}

fn find_tail_no_brace(subwords: &Vec<Subword>, from: usize, core: &ShellCore) -> (r: (usize, String))
    requires
        from <= subwords.len(),
    ensures
        r.0 == tail_from(subword_views(subwords@), from as int, Seq::empty(), core@).0,
        r.1@ == tail_from(subword_views(subwords@), from as int, Seq::empty(), core@).1,
        from <= r.0 <= subwords.len(),
{
    let ghost subs = subword_views(subwords@);
    let mut k: usize = from;
    let mut name = String::new();
    while k < subwords.len()
        invariant
            from <= k <= subwords.len(),
            subs == subword_views(subwords@),
            tail_from(subs, k as int, name@, core@) == tail_from(
                subs,
                from as int,
                Seq::empty(),
                core@,
            ),
        decreases subwords.len() - k,
    {
        let text = subwords[k].text();
        let mut len_as_name: usize = 0;
        if subwords[k].is_plain() {
            len_as_name = param_name(text.as_str());
            if len_as_name == 0 && name.as_str().unicode_len() == 0 {
                len_as_name = special_param(text.as_str());
            }
        }
        if len_as_name == 0 {
            return (k, core.get_var(name.as_str()));
        }
        let chars = to_chars(text.as_str());
        if len_as_name != chars.len() {
            let head = substring(&chars, 0, len_as_name);
            let rest = substring(&chars, len_as_name, chars.len());
            name.append(head.as_str());
            let mut val = core.get_var(name.as_str());
            val.append(rest.as_str());
            return (k + 1, val);
        }
        name.append(text.as_str());
        k += 1;
    }
    (k, core.get_var(name.as_str()))
}

fn find_tail_brace(subwords: &Vec<Subword>, from: usize, core: &ShellCore) -> (r: (usize, String))
    requires
        from < subwords.len(),
    ensures
        r.0 == tail_brace(subword_views(subwords@), from as int, from + 1, Seq::empty(), core@).0,
        r.1@ == tail_brace(subword_views(subwords@), from as int, from + 1, Seq::empty(), core@).1,
        from <= r.0 <= subwords.len(),
{
    let ghost subs = subword_views(subwords@);
    let mut k: usize = from + 1;
    let mut name = String::new();
    while k < subwords.len()
        invariant
            from < k <= subwords.len(),
            subs == subword_views(subwords@),
            tail_brace(subs, from as int, k as int, name@, core@) == tail_brace(
                subs,
                from as int,
                from + 1,
                Seq::empty(),
                core@,
            ),
        decreases subwords.len() - k,
    {
        let text = subwords[k].text();
        if crate::text::str_is(text.as_str(), "}") {
            return (k + 1, core.get_var(name.as_str()));
        }
        name.append(text.as_str());
        k += 1;
    }
    (from, String::new())
}

fn find_tail(subwords: &Vec<Subword>, from: usize, core: &ShellCore) -> (r: (usize, String))
    requires
        from <= subwords.len(),
    ensures
        r.0 == tail(subword_views(subwords@), from as int, core@).0,
        r.1@ == tail(subword_views(subwords@), from as int, core@).1,
        from <= r.0 <= subwords.len(),
{
    if from == subwords.len() {
        return (from, String::new());
    }
    let text = subwords[from].text();
    if crate::text::str_is(text.as_str(), "{") {
        find_tail_brace(subwords, from, core)
    } else {
        find_tail_no_brace(subwords, from, core)
    }
}

/// Puts `val` in the place of the subwords `i..to`.
fn replace(subwords: &Vec<Subword>, i: usize, to: usize, val: &String) -> (out: Vec<Subword>)
    requires
        i < to <= subwords.len(),
    ensures
        subword_views(out@) == replaced(subword_views(subwords@), i as int, to as int, val@),
        out@.len() == subwords@.len(),
{
    let mut out: Vec<Subword> = Vec::new();
    let mut k: usize = 0;
    let ghost goal = replaced(subword_views(subwords@), i as int, to as int, val@);
    while k < subwords.len()
        invariant
            k <= subwords.len(),
            i < to <= subwords.len(),
            out@.len() == k,
            goal == replaced(subword_views(subwords@), i as int, to as int, val@),
            forall|j: int| 0 <= j < k ==> (#[trigger] out@[j])@ == goal[j],
        decreases subwords.len() - k,
    {
        if k == i {
            out.push(Subword::Parameter(Parameter { text: val.clone() }));
        } else if i < k && k < to {
            out.push(Subword::Parameter(Parameter { text: String::new() }));
        } else {
            out.push(subwords[k].duplicate());
        }
        k += 1;
    }
    assert(subword_views(out@) =~= goal);
    out
}

/// Carries out parameter expansion on a list of subwords.
pub fn expand_list(subwords: Vec<Subword>, core: &ShellCore) -> (out: Vec<Subword>)
    ensures
        subword_views(out@) == expanded(subword_views(subwords@), core@),
{
    let mut list = subwords;
    let mut i: usize = 0;
    let ghost goal = expanded(subword_views(list@), core@);
    while i < list.len()
        invariant
            expanded_from(subword_views(list@), i as int, core@) == goal,
        decreases list.len() - i,
    {
        if list[i].is_dollar() {
            let (to, val) = find_tail(&list, i + 1, core);
            if to > i + 1 {
                list = replace(&list, i, to, &val);
                i = to;
                continue ;
            }
        }
        i += 1;
    }
    list
}

/// Carries out parameter expansion on the subwords of the word. The text of
/// the word stays as it is until the subwords are joined again.
pub fn eval(word: &mut Word, core: &ShellCore)
    ensures
        final(word)@.subwords == expanded(old(word)@.subwords, core@),
        final(word)@.text == old(word)@.text,
{
    let mut list: Vec<Subword> = Vec::new();
    std::mem::swap(&mut list, &mut word.subwords);
    word.subwords = expand_list(list, core);
}

} // verus!
