//! Double-quoted subwords.

use vstd::prelude::*;
use crate::elements::grammar::slice;
use crate::elements::grammar::quoted_piece_at;
use crate::elements::grammar::quoted_pieces;
use crate::elements::grammar::double_quoted_inside;
use crate::elements::grammar::double_quoted_end;
use crate::elements::grammar::quoted_piece;
use crate::elements::grammar::quoted_rest;
use crate::elements::grammar::ended;
use crate::elements::subword::Subword;
use crate::elements::subword::SubwordView;
use crate::elements::subword::arithmetic::Arithmetic;
use crate::elements::subword::braced_param::BracedParam;
use crate::elements::subword::command::CommandSubstitution;
use crate::elements::subword::unquoted::UnquotedSubword;
use crate::elements::word::concat_texts;
use crate::elements::word::push_subword;
use crate::elements::word::subword_views;
use crate::feeder::Feeder;
use crate::feeder::lemma_took_twice;
use crate::feeder::scanner::CharClass;
use crate::shell::ShellCore;

verus! {

/// `"..."`: the text with both quotes, and the subwords between them.
#[derive(Debug)]
pub struct DoubleQuoted {
    pub text: String,
    pub subwords: Vec<Subword>,
}

impl DoubleQuoted {
    /// The text is the subwords between two double quotes.
    pub open spec fn wf(text: Seq<char>, subwords: Seq<SubwordView>) -> bool {
        text == seq!['"'] + concat_texts(subwords) + seq!['"']
    }

    /// Takes the double-quoted subword with which the text begins. Between
    /// the quotes stand substitutions, parameters, escaped characters and runs
    /// of characters that stand for themselves. The closing quote may stand on
    /// a later line.
    pub fn parse(feeder: &mut Feeder, core: &mut ShellCore) -> (r: Option<DoubleQuoted>)
        requires
            old(feeder)@.wf(),
        ensures
            *final(core) == *old(core),
            double_quoted_end(old(feeder)@.chars, old(feeder)@.cursor()) == ended(
                r is Some,
                final(feeder)@,
            ),
            match r {
                Some(sw) => final(feeder)@.took(old(feeder)@, sw.text@) && Self::wf(
                    sw.text@,
                    subword_views(sw.subwords@),
                ) && sw.text@.len() > 0 && subword_views(sw.subwords@) == double_quoted_inside(
                    old(feeder)@.chars,
                    old(feeder)@.cursor(),
                ),
                None => final(feeder)@ == old(feeder)@,
            },
        decreases old(feeder)@.left(), old(feeder)@.unfed(), 1nat,
    {
        proof {
            reveal(double_quoted_end);
            reveal(double_quoted_inside);
            reveal(quoted_rest);
            reveal(quoted_pieces);
            reveal(quoted_piece);
            reveal(quoted_piece_at);
            reveal_strlit("\"");
        }
        if !feeder.starts_with("\"") {
            return None;
        }
        let pos = feeder.pos;
        let limit = feeder.limit;
        let ghost start = feeder@;
        let mut text = feeder.consume(1);
        let mut subwords: Vec<Subword> = Vec::new();
        assert(text@ =~= seq!['"'] + concat_texts(subword_views(subwords@)));
        assert(subword_views(subwords@) =~= Seq::<SubwordView>::empty());
        loop
            invariant
                start == old(feeder)@,
                start.wf(),
                pos == start.pos,
                limit == start.limit,
                feeder@.follows(start),
                feeder@.pos > start.pos,
                text@ == feeder@.consumed_since(start),
                text@ == seq!['"'] + concat_texts(subword_views(subwords@)),
                *core == *old(core),
                quoted_rest(start.chars, feeder@.cursor()) == double_quoted_end(
                    start.chars,
                    start.cursor(),
                ),
                quoted_pieces(start.chars, feeder@.cursor(), subword_views(subwords@))
                    == double_quoted_inside(start.chars, start.cursor()),
            decreases feeder@.left(), feeder@.unfed(),
        {
            let ghost before = feeder@;
            let ghost subs = subword_views(subwords@);
            proof {
                reveal(quoted_rest);
                reveal(quoted_pieces);
                reveal(quoted_piece);
                reveal(quoted_piece_at);
                reveal_strlit("\"");
            }
            if feeder.starts_with("\"") {
                let quote = feeder.consume(1);
                text.append(quote.as_str());
                proof {
                    lemma_took_twice(start, before, feeder@);
                    assert(quote@ =~= seq!['"']);
                }
                return Some(DoubleQuoted { text, subwords });
            }
            if feeder.len() == 0 {
                if !feeder.feed_additional_line(core) {
                    feeder.reset(pos, limit);
                    return None;
                }
                assert(feeder@.consumed_since(start) =~= before.consumed_since(start));
                continue ;
            }
            let sw = if let Some(a) = Arithmetic::parse(feeder, core) {
                Subword::Arithmetic(a)
            } else if let Some(a) = CommandSubstitution::parse(feeder, core) {
                Subword::Command(a)
            } else if let Some(a) = BracedParam::parse(feeder, core) {
                Subword::BracedParam(a)
            } else {
                let escaped = feeder.scanner_escaped_char(core);
                let run = feeder.scan_while(0, CharClass::InDoubleQuotes);
                let len = if escaped > 0 {
                    escaped
                } else if run > 0 {
                    run
                } else {
                    1
                };
                Subword::Unquoted(UnquotedSubword { text: feeder.consume(len) })
            };
            assert(quoted_piece(start.chars, before.cursor()) == Some(feeder@.cursor()));
            assert(sw@.text() == slice(start.chars, before.cursor(), Some(feeder@.cursor())));
            assert(sw@ == quoted_piece_at(start.chars, before.cursor()));
            let piece = sw.text();
            text.append(piece.as_str());
            push_subword(&mut subwords, sw);
            proof {
                lemma_took_twice(start, before, feeder@);
                assert(subword_views(subwords@).drop_last() =~= subs);
                assert(text@ =~= seq!['"'] + concat_texts(subword_views(subwords@)));
            }
        }
    }
}

} // verus!
