//! Command substitution. The command runs in a subshell, which is for the
//! caller; its output is handed in before the word is expanded.

use vstd::prelude::*;
use crate::elements::grammar::ended;
use crate::elements::grammar::substitution_end;
use crate::elements::command::paren::ParenCommand;
use crate::feeder::Feeder;
use crate::feeder::lemma_took_twice;
use crate::shell::ShellCore;
use crate::text::to_chars;
use crate::text::substring;
use crate::text::views;
use crate::elements::subword::Subword;
use crate::elements::subword::SubwordView;
use crate::elements::subword::double_quoted::DoubleQuoted;
use crate::elements::word::Word;
use crate::elements::word::WordView;
use crate::elements::word::subword_views;

verus! {

/// `$( ... )`: the text with the dollar and the parentheses, and the output
/// of the command once it has run.
#[derive(Debug)]
pub struct CommandSubstitution {
    pub text: String,
    pub output: Option<String>,
}

/// A text without the newlines at its end.
pub open spec fn without_final_newlines(s: Seq<char>) -> Seq<char>
    decreases s.len(),
{
    if s.len() > 0 && s.last() == '\n' {
        without_final_newlines(s.drop_last())
    } else {
        s
    }
}

impl CommandSubstitution {
    /// Takes the command substitution with which the text begins: a `$` and
    /// a command in parentheses.
    pub fn parse(feeder: &mut Feeder, core: &mut ShellCore) -> (r: Option<CommandSubstitution>)
        requires
            old(feeder)@.wf(),
        ensures
            *final(core) == *old(core),
            substitution_end(old(feeder)@.chars, old(feeder)@.cursor()) == ended(
                r is Some,
                final(feeder)@,
            ),
            match r {
                Some(sw) => final(feeder)@.took(old(feeder)@, sw.text@) && sw.text@.len() > 1
                    && sw.text@[0] == '$' && sw.text@[1] == '(' && sw.output is None,
                None => final(feeder)@ == old(feeder)@,
            },
        decreases old(feeder)@.left(), old(feeder)@.unfed(), 1nat,
    {
        proof {
            reveal(substitution_end);
            reveal_strlit("$(");
        }
        if !feeder.starts_with("$(") {
            return None;
        }
        let pos = feeder.pos;
        let limit = feeder.limit;
        let ghost start = feeder@;
        let mut text = feeder.consume(1);
        let ghost a = feeder@;
        match ParenCommand::parse(feeder, core) {
            Some(pc) => {
                text.append(pc.text.as_str());
                proof {
                    lemma_took_twice(start, a, feeder@);
                    assert(text@ =~= feeder@.consumed_since(start));
                    assert(text@.len() > 1);
                    assert("$("@[0] == '$' && "$("@[1] == '(');
                    assert(start.remaining()[0] == '$' && start.remaining()[1] == '(');
                    assert(text@[0] == start.chars[start.pos]);
                    assert(text@[1] == start.chars[start.pos + 1]);
                }
                Some(CommandSubstitution { text, output: None })
            },
            None => {
                feeder.reset(pos, limit);
                None
            },
        }
    }

    /// The command in parentheses, as it is written: the text without the
    /// dollar.
    pub fn command_text(&self) -> (t: String)
        requires
            self.text@.len() > 0,
        ensures
            t@ == self.text@.skip(1),
    {
        let v = to_chars(self.text.as_str());
        let t = substring(&v, 1, v.len());
        assert(t@ =~= self.text@.skip(1));
        t
    }

    /// Hands in what the command wrote: the newlines at its end are dropped.
    pub fn set_output(&mut self, out: &str)
        ensures
            final(self).text == old(self).text,
            final(self).output matches Some(o) && o@ == without_final_newlines(out@),
    {
        let v = to_chars(out);
        let mut end: usize = v.len();
        assert(v@.take(end as int) =~= v@);
        while end > 0 && v[end - 1] == '\n'
            invariant
                end <= v.len(),
                without_final_newlines(v@.take(end as int)) == without_final_newlines(v@),
            decreases end,
        {
            assert(v@.take(end as int).drop_last() =~= v@.take(end - 1));
            end -= 1;
        }
        let o = substring(&v, 0, end);
        assert(o@ =~= v@.take(end as int));
        self.output = Some(o);
    }
}

/// The command of a command substitution: its text without the dollar.
pub open spec fn command_part(t: Seq<char>) -> Seq<char> {
    if t.len() > 0 {
        t.skip(1)
    } else {
        t
    }
}

/// The commands that wait to be run in a subword, as they are written,
/// from left to right: that of a command substitution, and those between
/// double quotes.
pub open spec fn waiting(sw: SubwordView) -> Seq<Seq<char>>
    decreases sw,
{
    match sw {
        SubwordView::Command(t, _) => seq![command_part(t)],
        SubwordView::DoubleQuoted(_, inner) => waiting_all(inner),
        _ => Seq::empty(),
    }
}

/// The commands that wait to be run in a list of subwords.
pub open spec fn waiting_all(subs: Seq<SubwordView>) -> Seq<Seq<char>>
    decreases subs,
{
    if subs.len() == 0 {
        Seq::empty()
    } else {
        waiting_all(subs.drop_last()) + waiting(subs.last())
    }
}

/// A subword after the outputs of its commands were handed in, one output
/// for each command that waits in it, in their order.
pub open spec fn supplied(sw: SubwordView, outs: Seq<Seq<char>>) -> SubwordView
    decreases sw,
{
    match sw {
        SubwordView::Command(t, old) => if outs.len() > 0 {
            SubwordView::Command(t, Some(without_final_newlines(outs[0])))
        } else {
            sw
        },
        SubwordView::DoubleQuoted(t, inner) => SubwordView::DoubleQuoted(t, supplied_all(inner, outs)),
        _ => sw,
    }
}

/// A list of subwords after the outputs of its commands were handed in.
pub open spec fn supplied_all(subs: Seq<SubwordView>, outs: Seq<Seq<char>>) -> Seq<SubwordView>
    decreases subs,
{
    if subs.len() == 0 {
        Seq::empty()
    } else {
        let n = waiting_all(subs.drop_last()).len() as int;
        if n <= outs.len() {
            supplied_all(subs.drop_last(), outs.take(n)).push(supplied(subs.last(), outs.skip(n)))
        } else {
            subs
        }
    }
}

/// The commands that wait to be run in the subwords.
pub fn commands_in(subwords: &Vec<Subword>) -> (out: Vec<String>)
    ensures
        views(out@) == waiting_all(subword_views(subwords@)),
    decreases subwords,
{
    let mut out: Vec<String> = Vec::new();
    let ghost subs = subword_views(subwords@);
    let mut i: usize = 0;
    assert(subs.take(0) =~= Seq::<SubwordView>::empty());
    assert(views(out@) =~= Seq::<Seq<char>>::empty());
    while i < subwords.len()
        invariant
            i <= subwords.len(),
            subs == subword_views(subwords@),
            views(out@) == waiting_all(subs.take(i as int)),
        decreases subwords.len() - i,
    {
        proof {
            assert(subs.take(i + 1).drop_last() =~= subs.take(i as int));
            assert(subs.take(i + 1).last() == subwords@[i as int]@);
        }
        let ghost before = views(out@);
        match &subwords[i] {
            Subword::Command(c) => {
                let v = to_chars(c.text.as_str());
                let t = if v.len() > 0 {
                    substring(&v, 1, v.len())
                } else {
                    String::new()
                };
                assert(t@ =~= command_part(c.text@));
                out.push(t);
                assert(views(out@) =~= before + seq![command_part(c.text@)]);
                assert(subwords@[i as int]@ is Command);
                assert(waiting(subwords@[i as int]@) == seq![command_part(c.text@)]);
            },
            Subword::DoubleQuoted(d) => {
                let inner = commands_in(&d.subwords);
                let ghost added = views(inner@);
                assert(subwords@[i as int]@ == SubwordView::DoubleQuoted(
                    d.text@,
                    subword_views(d.subwords@),
                ));
                assert(waiting(subwords@[i as int]@) == added);
                let mut k: usize = 0;
                assert(before + added.take(0) =~= before);
                while k < inner.len()
                    invariant
                        k <= inner.len(),
                        added == views(inner@),
                        views(out@) == before + added.take(k as int),
                    decreases inner.len() - k,
                {
                    let ghost o = views(out@);
                    out.push(inner[k].clone());
                    assert(views(out@) =~= o.push(added[k as int]));
                    assert(before + added.take(k + 1) =~= (before + added.take(k as int)).push(
                        added[k as int],
                    ));
                    k += 1;
                }
                assert(added.take(k as int) =~= added);
            },
            _ => {
                assert(before + Seq::<Seq<char>>::empty() =~= before);
                assert(waiting(subwords@[i as int]@) == Seq::<Seq<char>>::empty());
            },
        }
        i += 1;
    }
    assert(subs.take(i as int) =~= subs);
    out
}

/// Hands the outputs `outs[from..]` to the commands that wait in the
/// subwords, in their order. The result is the subwords with the outputs, and
/// the index behind the last output that was used.
pub fn supply(subwords: &Vec<Subword>, outs: &Vec<String>, from: usize) -> (r: (Vec<Subword>, usize))
    requires
        from + waiting_all(subword_views(subwords@)).len() <= outs@.len(),
    ensures
        r.1 == from + waiting_all(subword_views(subwords@)).len(),
        subword_views(r.0@) == supplied_all(
            subword_views(subwords@),
            views(outs@).subrange(from as int, r.1 as int),
        ),
    decreases subwords,
{
    let mut out: Vec<Subword> = Vec::new();
    let ghost subs = subword_views(subwords@);
    let ghost all = views(outs@);
    let mut next: usize = from;
    let mut i: usize = 0;
    let total: usize = outs.len();
    proof {
        assert(subs.take(0) =~= Seq::<SubwordView>::empty());
        assert(subword_views(out@) =~= Seq::<SubwordView>::empty());
        lemma_waiting_grows(subs, 0);
    }
    while i < subwords.len()
        invariant
            i <= subwords.len(),
            subs == subword_views(subwords@),
            all == views(outs@),
            total == outs@.len(),
            from + waiting_all(subs).len() <= outs@.len(),
            next == from + waiting_all(subs.take(i as int)).len(),
            waiting_all(subs.take(i as int)).len() <= waiting_all(subs).len(),
            subword_views(out@) == supplied_all(
                subs.take(i as int),
                all.subrange(from as int, next as int),
            ),
        decreases subwords.len() - i,
    {
        let ghost upto = subs.take(i + 1);
        let ghost before = subword_views(out@);
        proof {
            assert(upto.drop_last() =~= subs.take(i as int));
            assert(upto.last() == subwords@[i as int]@);
            lemma_waiting_grows(subs, i + 1);
        }
        let start = next;
        let ghost n = waiting_all(subs.take(i as int)).len() as int;
        let ghost here = waiting(upto.last());
        proof {
            assert(waiting_all(upto) == waiting_all(subs.take(i as int)) + here);
            assert(n + here.len() <= waiting_all(subs).len());
        }
        let sw = match &subwords[i] {
            Subword::Command(c) => {
                proof {
                    assert(subwords@[i as int]@ is Command);
                    assert(here.len() == 1);
                }
                let mut copy = CommandSubstitution { text: c.text.clone(), output: None };
                copy.set_output(outs[next].as_str());
                next += 1;
                let sw = Subword::Command(copy);
                proof {
                    let used = all.subrange(from as int, next as int);
                    assert(used.skip(n) =~= all.subrange(start as int, next as int));
                    assert(used.skip(n)[0] == outs@[start as int]@);
                    assert(sw@ == supplied(upto.last(), used.skip(n)));
                }
                sw
            },
            Subword::DoubleQuoted(d) => {
                proof {
                    assert(subwords@[i as int]@ == SubwordView::DoubleQuoted(
                        d.text@,
                        subword_views(d.subwords@),
                    ));
                    assert(here == waiting_all(subword_views(d.subwords@)));
                }
                let (inner, after) = supply(&d.subwords, outs, next);
                next = after;
                let sw = Subword::DoubleQuoted(DoubleQuoted { text: d.text.clone(), subwords: inner });
                proof {
                    let used = all.subrange(from as int, next as int);
                    assert(used.skip(n) =~= all.subrange(start as int, next as int));
                    assert(sw@ == supplied(upto.last(), used.skip(n)));
                }
                sw
            },
            other => {
                proof {
                    assert(here.len() == 0);
                }
                let sw = other.duplicate();
                proof {
                    let used = all.subrange(from as int, next as int);
                    assert(sw@ == supplied(upto.last(), used.skip(n)));
                }
                sw
            },
        };
        proof {
            let used = all.subrange(from as int, next as int);
            assert(used.take(n) =~= all.subrange(from as int, start as int));
            assert(supplied_all(upto, used) == supplied_all(upto.drop_last(), used.take(n)).push(
                supplied(upto.last(), used.skip(n)),
            ));
        }
        out.push(sw);
        proof {
            assert(subword_views(out@) =~= before.push(sw@));
        }
        i += 1;
    }
    assert(subs.take(i as int) =~= subs);
    (out, next)
}

/// The commands that wait in the first subwords are among those that wait in
/// all.
proof fn lemma_waiting_grows(subs: Seq<SubwordView>, n: int)
    requires
        0 <= n <= subs.len(),
    ensures
        waiting_all(subs.take(n)).len() <= waiting_all(subs).len(),
    decreases subs.len() - n,
{
    if n < subs.len() {
        assert(subs.take(n + 1).drop_last() =~= subs.take(n));
        lemma_waiting_grows(subs, n + 1);
    } else {
        assert(subs.take(n) =~= subs);
    }
}

impl Word {
    /// The commands of the command substitutions in the word, as they are
    /// written, from left to right. The caller runs each in a subshell and
    /// hands the outputs in before the word is expanded.
    pub fn command_texts(&self) -> (out: Vec<String>)
        ensures
            views(out@) == waiting_all(self@.subwords),
    {
        commands_in(&self.subwords)
    }

    /// Hands in the outputs of the commands of the word, one for each command
    /// and in their order.
    pub fn supply_outputs(&mut self, outs: &Vec<String>)
        requires
            outs@.len() == waiting_all(old(self)@.subwords).len(),
        ensures
            final(self)@ == (WordView {
                text: old(self)@.text,
                subwords: supplied_all(old(self)@.subwords, views(outs@)),
            }),
    {
        let (subwords, used) = supply(&self.subwords, outs, 0);
        assert(views(outs@).subrange(0, used as int) =~= views(outs@));
        self.subwords = subwords;
    }
}

} // verus!
