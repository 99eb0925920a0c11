//! Parameters in braces.

use vstd::prelude::*;
use crate::elements::grammar::braced_pieces;
use crate::elements::grammar::braced_inside;
use crate::elements::grammar::braced_end;
use crate::elements::grammar::braced_rest;
use crate::elements::grammar::ended;
use crate::elements::subword::Subword;
use crate::elements::subword::unquoted::UnquotedSubword;
use crate::elements::subword::SubwordView;
use crate::elements::word::concat_texts;
use crate::elements::word::push_subword;
use crate::elements::word::subword_views;
use crate::feeder::Feeder;
use crate::feeder::lemma_took_twice;
use crate::shell::ShellCore;
use crate::elements::word::expansion::braced_value;
use crate::elements::word::expansion::head_length;
use crate::elements::word::expansion::missing;
use crate::elements::word::parameter_expansion::param_name;
use crate::elements::word::parameter_expansion::special_param;
use crate::text::substring;
use crate::text::to_chars;
use crate::text::u64_to_string;

verus! {

/// `${...}`: the text with the dollar and both braces, and the subwords after
/// the opening brace, the last of which is the closing brace.
#[derive(Debug)]
pub struct BracedParam {
    pub text: String,
    pub subwords: Vec<Subword>,
}

impl BracedParam {
    /// The text is `${` and the subwords, of which the last and no other is
    /// the closing brace.
    pub open spec fn wf(text: Seq<char>, subwords: Seq<SubwordView>) -> bool {
        &&& text == "${"@ + concat_texts(subwords)
        &&& subwords.len() > 0
        &&& subwords.last() == SubwordView::Unquoted("}"@)
        &&& forall|i: int|
            0 <= i < subwords.len() - 1 ==> #[trigger] subwords[i] != SubwordView::Unquoted("}"@)
    }

    /// Takes the parameter in braces with which the text begins: `${`, then
    /// subwords up to the first closing brace.
    pub fn parse(feeder: &mut Feeder, core: &mut ShellCore) -> (r: Option<BracedParam>)
        requires
            old(feeder)@.wf(),
        ensures
            *final(core) == *old(core),
            braced_end(old(feeder)@.chars, old(feeder)@.cursor()) == ended(
                r is Some,
                final(feeder)@,
            ),
            match r {
                Some(sw) => final(feeder)@.took(old(feeder)@, sw.text@) && Self::wf(
                    sw.text@,
                    subword_views(sw.subwords@),
                ) && sw.text@.len() > 0 && subword_views(sw.subwords@) == braced_inside(
                    old(feeder)@.chars,
                    old(feeder)@.cursor(),
                ),
                None => final(feeder)@ == old(feeder)@,
            },
        decreases old(feeder)@.left(), old(feeder)@.unfed(), 1nat,
    {
        proof {
            reveal(braced_end);
            reveal(braced_inside);
            reveal(braced_rest);
            reveal(braced_pieces);
            reveal_strlit("${");
        }
        if !feeder.starts_with("${") {
            return None;
        }
        let pos = feeder.pos;
        let limit = feeder.limit;
        let ghost start = feeder@;
        let mut text = feeder.consume(2);
        let mut subwords: Vec<Subword> = Vec::new();
        assert(text@ =~= "${"@ + concat_texts(subword_views(subwords@)));
        assert(subword_views(subwords@) =~= Seq::<SubwordView>::empty());
        loop
            invariant
                start == old(feeder)@,
                start.wf(),
                pos == start.pos,
                limit == start.limit,
                feeder@.follows(start),
                feeder@.pos > start.pos,
                text@ == feeder@.consumed_since(start),
                text@ == "${"@ + concat_texts(subword_views(subwords@)),
                forall|i: int|
                    0 <= i < subwords@.len() ==> #[trigger] subword_views(subwords@)[i]
                        != SubwordView::Unquoted("}"@),
                *core == *old(core),
                braced_rest(start.chars, feeder@.cursor()) == braced_end(
                    start.chars,
                    start.cursor(),
                ),
                braced_pieces(start.chars, feeder@.cursor(), subword_views(subwords@))
                    == braced_inside(start.chars, start.cursor()),
            decreases feeder@.left(),
        {
            let ghost before = feeder@;
            let ghost subs = subword_views(subwords@);
            proof {
                reveal(braced_rest);
                reveal(braced_pieces);
                reveal_strlit("}");
            }
            if feeder.starts_with("}") {
                let brace = UnquotedSubword { text: feeder.consume(1) };
                text.append(brace.text.as_str());
                push_subword(&mut subwords, Subword::Unquoted(brace));
                proof {
                    lemma_took_twice(start, before, feeder@);
                    assert(subword_views(subwords@).drop_last() =~= subs);
                    assert(text@ =~= "${"@ + concat_texts(subword_views(subwords@)));
                    assert(brace.text@ =~= "}"@);
                }
                return Some(BracedParam { text, subwords });
            }
            match crate::elements::subword::parse(feeder, core) {
                Some(sw) => {
                    let piece = sw.text();
                    text.append(piece.as_str());
                    proof {
                        assert(piece@ != "}"@) by {
                            if piece@ == "}"@ {
                                assert(piece@[0] == before.chars[before.pos]);
                                assert(before.remaining().subrange(0, 1) =~= "}"@);
                            }
                        }
                    }
                    push_subword(&mut subwords, sw);
                    proof {
                        lemma_took_twice(start, before, feeder@);
                        assert(subword_views(subwords@).drop_last() =~= subs);
                        assert(text@ =~= "${"@ + concat_texts(subword_views(subwords@)));
                    }
                },
                None => {
                    feeder.reset(pos, limit);
                    return None;
                },
            }
        }
    }
}

fn head(body: &str) -> (n: usize)
    ensures
        n == head_length(body@),
        n <= body@.len(),
{
    let n = param_name(body);
    if n > 0 {
        n
    } else {
        special_param(body)
    }
}

/// Works out what a parameter in braces stands for, where `body` is what
/// stands between the braces. `None` where the substitution fails.
pub fn braced(body: &str, core: &mut ShellCore) -> (r: Option<String>)
    ensures
        final(core)@ == braced_value(body@, old(core)@).1,
        match braced_value(body@, old(core)@).0 {
            Some(v) => r matches Some(out) && out@ == v,
            None => r is None,
        },
{
    let b = to_chars(body);
    if b.len() > 1 && b[0] == '#' {
        let inner = substring(&b, 1, b.len());
        assert(inner@ =~= body@.skip(1));
        if head(inner.as_str()) == b.len() - 1 {
            let value = core.get_var(inner.as_str());
            let len = value.as_str().unicode_len();
            return Some(u64_to_string(len as u64));
        }
    }
    let n = head(body);
    if n == 0 {
        return None;
    }
    let name = substring(&b, 0, n);
    assert(name@ =~= body@.take(n as int));
    let ghost rest = body@.skip(n as int);
    let value = core.get_var(name.as_str());
    if n == b.len() {
        return Some(value);
    }
    assert(rest[0] == b@[n as int]);
    let colon = b[n] == ':';
    let at: usize = if colon {
        n + 1
    } else {
        n
    };
    if at >= b.len() {
        return None;
    }
    assert(rest[at - n] == b@[at as int]);
    let op = b[at];
    let word = substring(&b, at + 1, b.len());
    assert(word@ =~= rest.skip(at - n + 1));
    let gone = if colon {
        value.as_str().unicode_len() == 0
    } else {
        !core.is_special(name.as_str()) && !core.is_set(name.as_str())
    };
    assert(gone == missing(name@, colon, core@));
    if op == '-' {
        Some(
            if gone {
                word
            } else {
                value
            },
        )
    } else if op == '=' {
        if gone {
            core.set_var(name.as_str(), word.as_str());
            Some(word)
        } else {
            Some(value)
        }
    } else if op == '+' {
        Some(
            if gone {
                String::new()
            } else {
                word
            },
        )
    } else if op == '?' {
        if gone {
            None
        } else {
            Some(value)
        }
    } else {
        None
    }
}

} // verus!
