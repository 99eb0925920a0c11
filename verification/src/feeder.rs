//! The feeder: the stream of characters that the parser reads. It holds all
//! the input that is known, a cursor, and the end of the part that has been
//! handed to the parser. The parser asks for one more line when it needs one,
//! and can go back to a position that it saved.

pub mod scanner;
pub mod terminal;

use vstd::prelude::*;
use crate::shell::ShellCore;
use crate::text::substring;
use crate::text::to_chars;
use crate::text::starts_at;

verus! {

#[derive(Debug)]
pub struct Feeder {
    /// All the input that is known, consumed or not.
    pub chars: Vec<char>,
    /// Where the parser stands.
    pub pos: usize,
    /// The end of the lines that were handed to the parser.
    pub limit: usize,
    /// The saved positions, the latest last.
    pub backups: Vec<(usize, usize)>,
}

/// A feeder as plain mathematical data.
pub struct FeederView {
    pub chars: Seq<char>,
    pub pos: int,
    pub limit: int,
    pub backups: Seq<(usize, usize)>,
}

impl View for Feeder {
    type V = FeederView;

    open spec fn view(&self) -> FeederView {
        FeederView {
            chars: self.chars@,
            pos: self.pos as int,
            limit: self.limit as int,
            backups: self.backups@,
        }
    }
}

impl FeederView {
    /// The cursor lies inside the lines that were handed over, and so does
    /// every saved position.
    pub open spec fn wf(self) -> bool {
        &&& 0 <= self.pos <= self.limit <= self.chars.len()
        &&& forall|i: int|
            0 <= i < self.backups.len() ==> (#[trigger] self.backups[i]).0 <= self.backups[i].1
                <= self.chars.len()
    }

    /// The characters between the cursor and the end of the lines that were
    /// handed over: what the parser sees.
    pub open spec fn remaining(self) -> Seq<char> {
        self.chars.subrange(self.pos, self.limit)
    }

    /// The characters that the parser has not been handed yet.
    pub open spec fn pending(self) -> Seq<char> {
        self.chars.subrange(self.limit, self.chars.len() as int)
    }

    /// How many characters lie after the cursor, handed over or not.
    pub open spec fn left(self) -> nat {
        (self.chars.len() - self.pos) as nat
    }

    /// Whether this feeder comes from `before` by reading on: the input and the
    /// saved positions are the same, and neither the cursor nor the end of the
    /// lines handed over has gone back.
    pub open spec fn follows(self, before: FeederView) -> bool {
        &&& self.wf()
        &&& self.chars == before.chars
        &&& self.backups == before.backups
        &&& before.pos <= self.pos
        &&& before.limit <= self.limit
    }

    /// The characters that were consumed since `before`.
    pub open spec fn consumed_since(self, before: FeederView) -> Seq<char> {
        self.chars.subrange(before.pos, self.pos)
    }

    /// Whether this feeder comes from `before` by consuming exactly `text`.
    pub open spec fn took(self, before: FeederView, text: Seq<char>) -> bool {
        self.follows(before) && text == self.consumed_since(before)
    }

    /// How many characters the parser has not been handed yet.
    pub open spec fn unfed(self) -> nat {
        (self.chars.len() - self.limit) as nat
    }

    /// The end of the first line of `self.pending()`, as a position in the
    /// input: behind its newline, or the end of the input.
    pub open spec fn next_line_end(self) -> int {
        line_end(self.chars, self.limit)
    }
}

/// Whether `s` begins with the word `word`, and the end of `s` or a character
/// that belongs to no word follows it.
pub open spec fn keyword_at(s: Seq<char>, word: Seq<char>) -> bool {
    word.is_prefix_of(s) && (s.len() == word.len() || !crate::feeder::scanner::CharClass::InWord.has(
        s[word.len() as int],
    ))
}

/// The position behind the first newline at or after `from`, or the end of
/// `s` where there is none.
pub open spec fn line_end(s: Seq<char>, from: int) -> int
    decreases s.len() - from,
{
    if from >= s.len() || from < 0 {
        s.len() as int
    } else if s[from] == '\n' {
        from + 1
    } else {
        line_end(s, from + 1)
    }
}

impl Feeder {
    /// A feeder on the given text, with the first line handed over.
    pub fn new(text: &str) -> (f: Feeder)
        ensures
            f@.wf(),
            f@.chars == text@,
            f@.pos == 0,
            f@.limit == line_end(text@, 0),
            f@.backups.len() == 0,
    {
        let chars = to_chars(text);
        let mut f = Feeder { chars, pos: 0, limit: 0, backups: Vec::new() };
        f.limit = f.find_line_end();
        f
    }

    fn find_line_end(&self) -> (end: usize)
        requires
            self.limit <= self.chars.len(),
        ensures
            end == self@.next_line_end(),
            self.limit <= end <= self.chars.len(),
            self.limit < self.chars.len() ==> self.limit < end,
    {
        let mut i: usize = self.limit;
        while i < self.chars.len() && self.chars[i] != '\n'
            invariant
                self.limit <= i <= self.chars.len(),
                line_end(self.chars@, i as int) == line_end(self.chars@, self.limit as int),
            decreases self.chars.len() - i,
        {
            i += 1;
        }
        if i < self.chars.len() {
            i + 1
        } else {
            i
        }
    }

    /// Adds text at the end of the input; the parser is not handed it yet.
    pub fn add_input(&mut self, text: &str)
        requires
            old(self)@.wf(),
        ensures
            final(self)@ == (FeederView { chars: old(self)@.chars + text@, ..old(self)@ }),
            final(self)@.wf(),
    {
        let more = to_chars(text);
        let mut i: usize = 0;
        while i < more.len()
            invariant
                i <= more.len(),
                self@ == (FeederView {
                    chars: old(self)@.chars + more@.take(i as int),
                    ..old(self)@
                }),
                old(self)@.wf(),
            decreases more.len() - i,
        {
            self.chars.push(more[i]);
            assert(self@.chars =~= old(self)@.chars + more@.take(i + 1));
            i += 1;
        }
        assert(more@.take(i as int) =~= more@);
        assert(self@.chars =~= old(self)@.chars + text@) by {
            assert(more@ == text@);
            assert(old(self)@.chars + more@.take(0) =~= old(self)@.chars);
        }
    }

    /// How many characters the parser sees.
    pub fn len(&self) -> (n: usize)
        requires
            self@.wf(),
        ensures
            n == self@.remaining().len(),
    {
        self.limit - self.pos
    }

    /// Whether what the parser sees begins with `s`.
    pub fn starts_with(&self, s: &str) -> (b: bool)
        requires
            self@.wf(),
        ensures
            b == s@.is_prefix_of(self@.remaining()),
    {
        let pat = to_chars(s);
        starts_at(&self.chars, self.pos, self.limit, &pat)
    }

    /// The first `n` characters that the parser sees, which stay where they
    /// are.
    pub fn refer(&self, n: usize) -> (s: String)
        requires
            self@.wf(),
            n <= self@.remaining().len(),
        ensures
            s@ == self@.remaining().take(n as int),
    {
        let s = substring(&self.chars, self.pos, self.pos + n);
        assert(self@.remaining().take(n as int) =~= self.chars@.subrange(
            self.pos as int,
            self.pos + n,
        ));
        s
    }

    /// Takes the first `n` characters that the parser sees out of the stream.
    pub fn consume(&mut self, n: usize) -> (s: String)
        requires
            old(self)@.wf(),
            n <= old(self)@.remaining().len(),
        ensures
            s@ == old(self)@.remaining().take(n as int),
            final(self)@ == (FeederView { pos: old(self)@.pos + n, ..old(self)@ }),
            final(self)@.follows(old(self)@),
            final(self)@.consumed_since(old(self)@) == s@,
    {
        let s = self.refer(n);
        self.pos = self.pos + n;
        assert(self@.consumed_since(old(self)@) =~= s@);
        s
    }

    /// Takes the first `n` characters that the parser sees and puts them at
    /// the end of `text`.
    pub fn take_into(&mut self, text: &mut String, n: usize)
        requires
            old(self)@.wf(),
            n <= old(self)@.remaining().len(),
        ensures
            final(text)@ == old(text)@ + old(self)@.remaining().take(n as int),
            final(self)@ == (FeederView { pos: old(self)@.pos + n, ..old(self)@ }),
            final(self)@.follows(old(self)@),
            final(text)@ == old(text)@ + final(self)@.consumed_since(old(self)@),
    {
        let s = self.consume(n);
        text.append(s.as_str());
    }

    /// Whether the text begins with the word `word` and the word ends there:
    /// the end of the text or a character that belongs to no word follows it.
    pub fn starts_with_keyword(&self, word: &str) -> (b: bool)
        requires
            self@.wf(),
        ensures
            b == keyword_at(self@.remaining(), word@),
    {
        if !self.starts_with(word) {
            return false;
        }
        let n = word.unicode_len();
        match self.peek(n) {
            Some(c) => !crate::feeder::scanner::CharClass::InWord.contains(c),
            None => true,
        }
    }

    /// Hands the parser one more line of the input. Gives `false`, and changes
    /// nothing, where the input is at its end.
    pub fn feed_additional_line(&mut self, core: &mut ShellCore) -> (more: bool)
        requires
            old(self)@.wf(),
        ensures
            *final(core) == *old(core),
            more == (old(self)@.pending().len() > 0),
            final(self)@ == (FeederView {
                limit: if more {
                    old(self)@.next_line_end()
                } else {
                    old(self)@.limit
                },
                ..old(self)@
            }),
            final(self)@.follows(old(self)@),
            more ==> final(self)@.limit > old(self)@.limit,
    {
        if self.limit == self.chars.len() {
            return false;
        }
        self.limit = self.find_line_end();
        true
    }

    /// Saves the position.
    pub fn set_backup(&mut self)
        requires
            old(self)@.wf(),
        ensures
            final(self)@ == (FeederView {
                backups: old(self)@.backups.push((old(self).pos, old(self).limit)),
                ..old(self)@
            }),
            final(self)@.wf(),
    {
        self.backups.push((self.pos, self.limit));
    }

    /// Forgets the position that was saved last.
    pub fn pop_backup(&mut self)
        requires
            old(self)@.wf(),
            old(self)@.backups.len() > 0,
        ensures
            final(self)@ == (FeederView { backups: old(self)@.backups.drop_last(), ..old(self)@ }),
            final(self)@.wf(),
    {
        self.backups.pop();
    }

    /// Goes back to the position that was saved last, and forgets it.
    pub fn rewind(&mut self)
        requires
            old(self)@.wf(),
            old(self)@.backups.len() > 0,
        ensures
            final(self)@ == (FeederView {
                pos: old(self)@.backups.last().0 as int,
                limit: old(self)@.backups.last().1 as int,
                backups: old(self)@.backups.drop_last(),
                chars: old(self)@.chars,
            }),
            final(self)@.wf(),
    {
        let ghost saved = self@.backups.last();
        assert(saved.0 <= saved.1 <= self.chars@.len());
        match self.backups.pop() {
            Some((pos, limit)) => {
                self.pos = pos;
                self.limit = limit;
            },
            None => {},
        }
    }

    /// Goes back to a position that the caller kept.
    pub fn reset(&mut self, pos: usize, limit: usize)
        requires
            old(self)@.wf(),
            pos <= limit <= old(self)@.chars.len(),
        ensures
            final(self)@ == (FeederView { pos: pos as int, limit: limit as int, ..old(self)@ }),
            final(self)@.wf(),
    {
        self.pos = pos;
        self.limit = limit;
    }
}

/// A position saved and then gone back to is the position before: the feeder
/// is as it was.
pub proof fn lemma_backup_rewind(f: FeederView, moved: FeederView)
    requires
        f.wf(),
        moved.chars == f.chars,
        moved.backups == f.backups.push((f.pos as usize, f.limit as usize)),
        f.pos <= usize::MAX,
        f.limit <= usize::MAX,
    ensures
        (FeederView {
            pos: moved.backups.last().0 as int,
            limit: moved.backups.last().1 as int,
            backups: moved.backups.drop_last(),
            chars: moved.chars,
        }) == f,
{
    assert(moved.backups.drop_last() =~= f.backups);
}

/// Reading on twice is reading on once, and what was consumed is what the
/// first step consumed followed by what the second consumed.
pub proof fn lemma_took_twice(a: FeederView, b: FeederView, c: FeederView)
    requires
        a.wf(),
        b.follows(a),
        c.follows(b),
    ensures
        c.follows(a),
        c.consumed_since(a) == b.consumed_since(a) + c.consumed_since(b),
        c.left() <= b.left() <= a.left(),
{
    assert(c.consumed_since(a) =~= b.consumed_since(a) + c.consumed_since(b));
}

} // verus!
