//! Tilde expansion: a `~` at the start of a word, alone or before a slash,
//! stands for the home directory.

use vstd::prelude::*;
use crate::elements::subword::Subword;
use crate::elements::subword::SubwordView;
use crate::elements::subword::single_quoted::SingleQuotedSubword;
use crate::elements::word::Word;
use crate::elements::word::subword_views;
use crate::shell::CoreView;
use crate::shell::ShellCore;

verus! {

/// Whether the subwords begin with a `~` that stands for the home directory
/// of the user of the shell: the `~` is the whole word, or a slash follows it.
pub open spec fn has_tilde(subs: Seq<SubwordView>) -> bool {
    &&& subs.len() > 0
    &&& subs[0] == SubwordView::Unquoted("~"@)
    &&& subs.len() == 1 || subs[1] == SubwordView::Unquoted("/"@)
}

/// The subwords after tilde expansion: the `~` gives way to the value of
/// `HOME`, which counts as quoted from here on. A `~` with a user name behind
/// it stays as it is.
pub open spec fn tilde_expanded(subs: Seq<SubwordView>, st: CoreView) -> Seq<SubwordView> {
    if has_tilde(subs) {
        subs.update(0, SubwordView::SingleQuoted(seq!['\''] + st.value_of("HOME"@) + seq!['\'']))
    } else {
        subs
    }
}

/// Carries out tilde expansion on a list of subwords.
pub fn expand_tilde(subwords: &Vec<Subword>, core: &ShellCore) -> (out: Vec<Subword>)
    ensures
        subword_views(out@) == tilde_expanded(subword_views(subwords@), core@),
{
    let ghost subs = subword_views(subwords@);
    let tilde = subwords.len() > 0 && subwords[0].is_symbol("~") && (subwords.len() == 1
        || subwords[1].is_symbol("/"));
    let mut out: Vec<Subword> = Vec::new();
    let mut i: usize = 0;
    let ghost goal = tilde_expanded(subs, core@);
    while i < subwords.len()
        invariant
            i <= subwords.len(),
            subs == subword_views(subwords@),
            tilde == has_tilde(subs),
            goal == tilde_expanded(subs, core@),
            out@.len() == i,
            forall|k: int| 0 <= k < i ==> (#[trigger] out@[k])@ == goal[k],
        decreases subwords.len() - i,
    {
        if i == 0 && tilde {
            let mut text = String::new();
            text.push('\'');
            text.append(core.get_var("HOME").as_str());
            text.push('\'');
            assert(text@ =~= seq!['\''] + core@.value_of("HOME"@) + seq!['\'']);
            out.push(Subword::SingleQuoted(SingleQuotedSubword { text }));
        } else {
            out.push(subwords[i].duplicate());
        }
        i += 1;
    }
    assert(subword_views(out@) =~= goal);
    out
}

/// Carries out tilde expansion on the subwords of the word. The text of the
/// word stays as it is until the subwords are joined again.
pub fn eval(word: &mut Word, core: &ShellCore)
    ensures
        final(word)@.subwords == tilde_expanded(old(word)@.subwords, core@),
        final(word)@.text == old(word)@.text,
{
    word.subwords = expand_tilde(&word.subwords, core);
}

} // verus!
