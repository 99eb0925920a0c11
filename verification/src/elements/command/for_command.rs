//! The `for` command, over a list of words or with three expressions.

use vstd::prelude::*;
use crate::elements::grammar::for_front;
use crate::elements::script::script_option;
use crate::elements::command::CommandView;
use crate::elements::io::redirect::redirect_views;
use crate::elements::io::redirect::RedirectView;
use crate::elements::command::redirects_at;
use crate::elements::command::do_body_at;
use crate::elements::grammar::word_end;
use crate::elements::grammar::word_at;
use crate::elements::grammar::slice;
use crate::elements::grammar::onward;
use crate::elements::grammar::fed;
use crate::elements::grammar::expr_end;
use crate::elements::grammar::expr_at;
use crate::elements::grammar::Cursor;
use crate::feeder::scanner::name_length;
use crate::elements::command::eat_do_body;
use crate::elements::grammar::ended;
use crate::elements::grammar::triple_rest;
use crate::elements::grammar::step;
use crate::elements::grammar::skip_blank_comment;
use crate::elements::grammar::list_rest;
use crate::elements::grammar::head_end;
use crate::elements::grammar::for_head;
use crate::elements::grammar::behind_keyword;
use crate::elements::grammar::behind;
use crate::elements::grammar::for_end;
use crate::elements::command::eat_blank_with_comment;
use crate::elements::command::eat_space_with_comments;
use crate::elements::expr::arithmetic::ArithmeticExpr;
use crate::elements::expr::arithmetic::ExprView;
use crate::elements::io::redirect::Redirect;
use crate::elements::script::Script;
use crate::elements::word::Word;
use crate::elements::word::WordView;
use crate::elements::word::word_fields;
use crate::elements::word::split::FieldView;
use crate::elements::word::expansion::expr_value;
use crate::feeder::Feeder;
use crate::feeder::lemma_took_twice;
use crate::shell::CoreView;
use crate::shell::ShellCore;
use crate::text::decimal;
use crate::text::views;

verus! {

#[derive(Debug)]
pub struct ForCommand {
    /// The source text.
    pub text: String,
    /// The name of the loop variable; empty for the form with expressions.
    pub name: String,
    /// Whether a list of words is given behind `in`.
    pub has_in: bool,
    /// Whether this is the form with three expressions.
    pub has_arithmetic: bool,
    /// The words behind `in`.
    pub values: Vec<Word>,
    /// The three expressions; one that is left out is `None`.
    pub arithmetics: Vec<Option<ArithmeticExpr>>,
    /// The body.
    pub do_script: Option<Script>,
    /// The redirections behind `done`.
    pub redirects: Vec<Redirect>,
    /// Whether the command has to run in a process of its own.
    pub force_fork: bool,
}

/// What a loop does next.
#[derive(Debug, Clone, Copy, PartialEq, Eq, Structural)]
pub enum LoopStep {
    /// The body runs once more.
    Body,
    /// The loop is over; the flag says whether it went well.
    Done(bool),
}

/// The views of a list of words.
pub open spec fn word_views(v: Seq<Word>) -> Seq<WordView> {
    v.map_values(|w: Word| w@)
}

/// The texts of the fields of all words, one word after another; `None`
/// where the expansion of a word fails.
pub open spec fn all_fields(words: Seq<WordView>, st: CoreView) -> (Option<Seq<Seq<char>>>, CoreView)
    decreases words.len(),
{
    if words.len() == 0 {
        (Some(Seq::empty()), st)
    } else {
        let (front, mid) = all_fields(words.drop_last(), st);
        match front {
            Some(done) => {
                let (last, after) = word_fields(words.last(), mid);
                match last {
                    Some(fields) => (Some(done + fields.map_values(|f: FieldView| f.text)), after),
                    None => (None, after),
                }
            },
            None => (None, mid),
        }
    }
}

proof fn lemma_fields_fail(words: Seq<WordView>, n: int, st: CoreView)
    requires
        0 <= n <= words.len(),
        all_fields(words.take(n), st).0 is None,
    ensures
        all_fields(words, st) == all_fields(words.take(n), st),
    decreases words.len() - n,
{
    if n < words.len() {
        assert(words.take(n + 1).drop_last() =~= words.take(n));
        lemma_fields_fail(words, n + 1, st);
    } else {
        assert(words.take(n) =~= words);
    }
}

/// Expands the words into the texts of their fields.
pub fn eval_words(words: &mut Vec<Word>, core: &mut ShellCore) -> (r: Option<Vec<String>>)
    ensures
        word_views(final(words)@) == word_views(old(words)@),
        final(core)@ == all_fields(word_views(old(words)@), old(core)@).1,
        match all_fields(word_views(old(words)@), old(core)@).0 {
            Some(fields) => r matches Some(out) && views(out@) == fields,
            None => r is None,
        },
{
    let mut ans: Vec<String> = Vec::new();
    let ghost all = word_views(words@);
    let ghost start = old(core)@;
    let mut i: usize = 0;
    assert(all.take(0) =~= Seq::<WordView>::empty());
    assert(views(ans@) =~= Seq::<Seq<char>>::empty());
    while i < words.len()
        invariant
            i <= words.len(),
            all == word_views(words@),
            all == word_views(old(words)@),
            start == old(core)@,
            all_fields(all.take(i as int), start) == (Some(views(ans@)), core@),
        decreases words.len() - i,
    {
        proof {
            assert(all.take(i + 1).drop_last() =~= all.take(i as int));
            assert(all.take(i + 1).last() == words@[i as int]@);
        }
        let ghost done = views(ans@);
        match words[i].expand(core) {
            Some(fields) => {
                let ghost added = crate::elements::word::split::field_views(fields@).map_values(
                    |f: FieldView| f.text,
                );
                let mut k: usize = 0;
                assert(done + added.take(0) =~= done);
                while k < fields.len()
                    invariant
                        k <= fields.len(),
                        added == crate::elements::word::split::field_views(fields@).map_values(
                            |f: FieldView| f.text,
                        ),
                        views(ans@) == done + added.take(k as int),
                    decreases fields.len() - k,
                {
                    let ghost before = views(ans@);
                    ans.push(fields[k].text.clone());
                    assert(views(ans@) =~= before.push(added[k as int]));
                    assert(done + added.take(k + 1) =~= (done + added.take(k as int)).push(
                        added[k as int],
                    ));
                    k += 1;
                }
                assert(added.take(k as int) =~= added);
            },
            None => {
                proof {
                    assert(all_fields(all.take(i + 1), start).0 is None);
                    lemma_fields_fail(all, i + 1, start);
                }
                return None;
            },
        }
        i += 1;
    }
    assert(all.take(i as int) =~= all);
    Some(ans)
}

/// The value of one of the three expressions: a missing one counts as 1; an
/// error counts as 0 and is told by the flag.
pub open spec fn part_value(a: Option<ExprView>, st: CoreView) -> ((bool, Seq<char>), CoreView) {
    match a {
        None => ((true, "1"@), st),
        Some(e) => {
            let (value, after) = expr_value(e, st);
            match value {
                Ok(n) => ((true, decimal(n as int)), after),
                Err(_) => ((false, "0"@), after),
            }
        },
    }
}

/// The views of the expressions in `v`.
pub open spec fn parts_of(v: Seq<Option<ArithmeticExpr>>) -> Seq<Option<ExprView>> {
    v.map_values(
        |a: Option<ArithmeticExpr>|
            match a {
                Some(e) => Some(e@),
                None => None,
            },
    )
}

/// The head of a `for` command as plain mathematical data: the name and the
/// words, or the three expressions.
pub struct ForHead {
    pub name: Seq<char>,
    pub has_in: bool,
    pub has_arithmetic: bool,
    pub values: Seq<WordView>,
    pub parts: Seq<Option<ExprView>>,
}

/// The words of a list that goes on at `c`, behind the words `so_far`.
#[verifier::opaque]
pub open spec fn list_words(chars: Seq<char>, c: Cursor, so_far: Seq<WordView>) -> Seq<WordView>
    decreases chars.len() - c.pos, chars.len() - c.limit,
{
    let b = skip_blank_comment(chars, c);
    if !c.within(chars) {
        so_far
    } else {
        match onward(chars, c, word_end(chars, b)) {
            Some(next) => list_words(chars, next, so_far.push(word_at(chars, b))),
            None => so_far,
        }
    }
}

/// One of the three expressions: nothing where it has no token.
pub open spec fn part_at(chars: Seq<char>, c: Cursor) -> Option<ExprView> {
    if expr_at(chars, c).elements.len() == 0 {
        None
    } else {
        Some(expr_at(chars, c))
    }
}

/// The expressions between `((` and `))` that go on at `c`, behind the
/// expressions `so_far`.
#[verifier::opaque]
pub open spec fn triple_parts(chars: Seq<char>, c: Cursor, so_far: Seq<Option<ExprView>>) -> Seq<
    Option<ExprView>,
>
    decreases chars.len() - c.pos, chars.len() - c.limit,
{
    let b = skip_blank_comment(chars, c);
    if !c.within(chars) {
        so_far
    } else if b.sees(chars).len() == 0 {
        match fed(chars, b) {
            Some(f) => triple_parts(chars, f, so_far),
            None => so_far,
        }
    } else {
        let e = expr_end(chars, b, false, 0);
        let t = skip_blank_comment(chars, e);
        let more = so_far.push(part_at(chars, b));
        if b.leads(e, chars) && behind(chars, t, ";"@) is Some && more.len() < 3 {
            triple_parts(chars, behind(chars, t, ";"@)->0, more)
        } else {
            more
        }
    }
}

/// The head of the `for` command whose `for` ends at `c`.
#[verifier::opaque]
pub open spec fn for_head_at(chars: Seq<char>, c: Cursor) -> ForHead {
    let a = skip_blank_comment(chars, c);
    match step(chars, a, name_length(a.sees(chars))) {
        Some(x) => {
            let b = skip_blank_comment(chars, x);
            ForHead {
                name: slice(chars, a, Some(x)),
                has_in: behind_keyword(chars, b, "in"@) is Some,
                has_arithmetic: false,
                values: match behind_keyword(chars, b, "in"@) {
                    Some(y) => list_words(chars, y, Seq::empty()),
                    None => Seq::empty(),
                },
                parts: Seq::empty(),
            }
        },
        None => ForHead {
            name: Seq::empty(),
            has_in: false,
            has_arithmetic: true,
            values: Seq::empty(),
            parts: match behind(chars, a, "(("@) {
                Some(x) => triple_parts(chars, x, Seq::empty()),
                None => Seq::empty(),
            },
        },
    }
}

/// Where the `do` of the `for` command at `c` stands: behind the head and
/// what ends it.
pub open spec fn body_start(chars: Seq<char>, c: Cursor) -> Cursor {
    match for_front(chars, c) {
        Some(d) => d,
        None => c,
    }
}

/// The view of a `for` command.
pub open spec fn for_view(x: ForCommand) -> CommandView
    decreases x,
{
    CommandView::For {
        text: x.text@,
        head: x.head(),
        body: script_option(x.do_script),
        redirects: redirect_views(x.redirects@),
    }
}

/// The `for` command at `c`, where one begins there.
#[verifier::opaque]
pub open spec fn for_at(chars: Seq<char>, c: Cursor) -> CommandView
    decreases chars.len() - c.pos, chars.len() - c.limit, 6nat, 0nat,
{
    let text = slice(chars, c, for_end(chars, c));
    let head = for_head_at(chars, c.after(3));
    let d = body_start(chars, c);
    if c.reaches(d, chars) {
        let body = do_body_at(chars, d);
        CommandView::For {
            text,
            head,
            body: Some(body.0),
            redirects: redirects_at(chars, body.1, Seq::empty()),
        }
    } else {
        CommandView::For { text, head, body: None, redirects: Seq::empty() }
    }
}

impl ForCommand {
    /// The three expressions as plain mathematical data.
    pub open spec fn parts(&self) -> Seq<Option<ExprView>> {
        parts_of(self.arithmetics@)
    }

    /// The head of the command as plain mathematical data.
    pub open spec fn head(&self) -> ForHead {
        ForHead {
            name: self.name@,
            has_in: self.has_in,
            has_arithmetic: self.has_arithmetic,
            values: word_views(self.values@),
            parts: self.parts(),
        }
    }

    pub fn new() -> (c: ForCommand)
        ensures
            c.text@.len() == 0,
            c.name@.len() == 0,
            !c.has_in,
            !c.has_arithmetic,
            c.values@.len() == 0,
            c.arithmetics@.len() == 0,
            c.do_script is None,
            c.redirects@.len() == 0,
            !c.force_fork,
    {
        ForCommand {
            text: String::new(),
            name: String::new(),
            has_in: false,
            has_arithmetic: false,
            values: Vec::new(),
            arithmetics: Vec::new(),
            do_script: None,
            redirects: Vec::new(),
            force_fork: false,
        }
    }

    /// The body is there; the form with expressions has three of them and no
    /// name, the other form has a name.
    pub open spec fn wf(&self) -> bool {
        &&& self.do_script is Some
        &&& self.has_arithmetic ==> self.arithmetics@.len() == 3
        &&& !self.has_arithmetic ==> self.name@.len() > 0
    }

    /// The view of one of the three expressions.
    pub open spec fn part(&self, i: int) -> Option<ExprView> {
        match self.arithmetics@[i] {
            Some(e) => Some(e@),
            None => None,
        }
    }

    /// The values that the loop variable takes: the fields of the words behind
    /// `in`, or the positional parameters where there is no `in`.
    pub fn loop_values(&mut self, core: &mut ShellCore) -> (r: Option<Vec<String>>)
        ensures
            final(self).text == old(self).text,
            final(self).name == old(self).name,
            final(self).has_in == old(self).has_in,
            if old(self).has_in {
                &&& final(core)@ == all_fields(word_views(old(self).values@), old(core)@).1
                &&& match all_fields(word_views(old(self).values@), old(core)@).0 {
                    Some(fields) => r matches Some(out) && views(out@) == fields,
                    None => r is None,
                }
            } else {
                &&& final(core)@ == old(core)@
                &&& r matches Some(out) && views(out@) == old(core)@.arguments()
            },
    {
        if self.has_in {
            eval_words(&mut self.values, core)
        } else {
            let mut out: Vec<String> = Vec::new();
            let mut i: usize = 1;
            if core.params.len() == 0 {
                assert(views(out@) =~= core@.arguments());
                return Some(out);
            }
            while i < core.params.len()
                invariant
                    1 <= i <= core.params.len(),
                    out@.len() == i - 1,
                    forall|k: int| 0 <= k < i - 1 ==> (#[trigger] out@[k])@ == core.params@[k + 1]@,
                decreases core.params.len() - i,
            {
                out.push(core.params[i].clone());
                i += 1;
            }
            assert(views(out@) =~= core@.arguments());
            Some(out)
        }
    }

    /// What the loop over values does before the round with the index `i`: it
    /// ends well behind the last value, it ends badly once an interrupt has
    /// arrived, else the loop variable takes the value and the body runs.
    pub fn next_value(&self, values: &Vec<String>, i: usize, core: &mut ShellCore) -> (step: LoopStep)
        ensures
            step == if i >= values@.len() {
                LoopStep::Done(true)
            } else if old(core).sigint {
                LoopStep::Done(false)
            } else {
                LoopStep::Body
            },
            final(core)@ == if step is Body {
                old(core)@.assign(self.name@, values@[i as int]@)
            } else {
                old(core)@
            },
    {
        if i >= values.len() {
            return LoopStep::Done(true);
        }
        if core.sigint {
            return LoopStep::Done(false);
        }
        core.set_var(self.name.as_str(), values[i].as_str());
        LoopStep::Body
    }

    /// Whether a loop goes on after its body has run: it does not where a
    /// `break` is pending, of which one level is then used up.
    pub fn after_body(core: &mut ShellCore) -> (goes_on: bool)
        ensures
            goes_on == (old(core).break_counter == 0),
            final(core)@ == (CoreView {
                break_counter: if old(core).break_counter > 0 {
                    (old(core).break_counter - 1) as u64
                } else {
                    0
                },
                ..old(core)@
            }),
    {
        if core.break_counter > 0 {
            core.break_counter -= 1;
            false
        } else {
            true
        }
    }

    /// Evaluates one of the three expressions.
    pub fn eval_arithmetic(a: &Option<ArithmeticExpr>, core: &mut ShellCore) -> (r: (bool, String))
        ensures
            ({
                let ((ok, text), after) = part_value(
                    match a {
                        Some(e) => Some(e@),
                        None => None,
                    },
                    old(core)@,
                );
                r.0 == ok && r.1@ == text && final(core)@ == after
            }),
    {
        match a {
            None => (true, String::from_str("1")),
            Some(e) => match e.eval(core) {
                Ok(n) => (true, n),
                Err(_) => (false, String::from_str("0")),
            },
        }
    }

    /// Begins the loop with expressions: evaluates the first one. The result
    /// says whether that went well.
    pub fn begin_arithmetic(&self, core: &mut ShellCore) -> (ok: bool)
        requires
            self.wf(),
            self.has_arithmetic,
        ensures
            ok == part_value(self.part(0), old(core)@).0.0,
            final(core)@ == part_value(self.part(0), old(core)@).1,
    {
        let (ok, _) = Self::eval_arithmetic(&self.arithmetics[0], core);
        ok
    }

    /// What the loop with expressions does before a round: it ends badly once
    /// an interrupt has arrived; else the second expression is evaluated, and
    /// the loop ends where that is 0, else the body runs.
    pub fn test_arithmetic(&self, core: &mut ShellCore) -> (step: LoopStep)
        requires
            self.wf(),
            self.has_arithmetic,
        ensures
            if old(core).sigint {
                step == LoopStep::Done(false) && final(core)@ == old(core)@
            } else {
                let ((ok, text), after) = part_value(self.part(1), old(core)@);
                &&& final(core)@ == after
                &&& step == if text == "0"@ {
                    LoopStep::Done(ok)
                } else {
                    LoopStep::Body
                }
            },
    {
        if core.sigint {
            return LoopStep::Done(false);
        }
        let (ok, val) = Self::eval_arithmetic(&self.arithmetics[1], core);
        if crate::text::str_is(val.as_str(), "0") {
            LoopStep::Done(ok)
        } else {
            LoopStep::Body
        }
    }

    /// Ends a round of the loop with expressions: evaluates the third one. The
    /// result says whether that went well.
    pub fn advance_arithmetic(&self, core: &mut ShellCore) -> (ok: bool)
        requires
            self.wf(),
            self.has_arithmetic,
        ensures
            ok == part_value(self.part(2), old(core)@).0.0,
            final(core)@ == part_value(self.part(2), old(core)@).1,
    {
        let (ok, _) = Self::eval_arithmetic(&self.arithmetics[2], core);
        ok
    }

    /// Enters a loop: one more loop is running.
    pub fn enter(core: &mut ShellCore)
        requires
            old(core).loop_level < u64::MAX,
        ensures
            final(core)@ == (CoreView {
                loop_level: (old(core).loop_level + 1) as u64,
                ..old(core)@
            }),
    {
        core.loop_level += 1;
    }

    /// Leaves a loop that went well or not. A loop that went badly leaves an
    /// exit status other than 0. With the outermost loop the pending breaks
    /// are forgotten.
    pub fn leave(core: &mut ShellCore, ok: bool)
        requires
            old(core).loop_level > 0,
        ensures
            ({
                let marked = if !ok && old(core)@.value_of("?"@) == "0"@ {
                    old(core)@.assign("?"@, "1"@)
                } else {
                    old(core)@
                };
                final(core)@ == (CoreView {
                    loop_level: (old(core).loop_level - 1) as u64,
                    break_counter: if old(core).loop_level == 1 {
                        0
                    } else {
                        old(core).break_counter
                    },
                    ..marked
                })
            }),
    {
        if !ok && crate::text::str_is(core.get_var("?").as_str(), "0") {
            core.set_var("?", "1");
        }
        core.loop_level -= 1;
        if core.loop_level == 0 {
            core.break_counter = 0;
        }
    }

    fn eat_name(feeder: &mut Feeder, ans: &mut Self, core: &mut ShellCore) -> (ok: bool)
        requires
            old(feeder)@.wf(),
        ensures
            *final(core) == *old(core),
            final(feeder)@.follows(old(feeder)@),
            final(ans).text@ == old(ans).text@ + final(feeder)@.consumed_since(old(feeder)@),
            ok ==> final(ans).name@.len() > 0,
            !ok ==> final(ans).name == old(ans).name,
            ({
                let a = skip_blank_comment(old(feeder)@.chars, old(feeder)@.cursor());
                let x = step(old(feeder)@.chars, a, name_length(a.sees(old(feeder)@.chars)));
                &&& ok == (x is Some)
                &&& final(feeder)@.cursor() == if ok {
                    skip_blank_comment(old(feeder)@.chars, x->0)
                } else {
                    a
                }
                &&& ok ==> final(ans).name@ == slice(old(feeder)@.chars, a, x)
            }),
            final(ans).has_in == old(ans).has_in,
            final(ans).has_arithmetic == old(ans).has_arithmetic,
            final(ans).values == old(ans).values,
            final(ans).arithmetics == old(ans).arithmetics,
            final(ans).do_script == old(ans).do_script,
            final(ans).redirects == old(ans).redirects,
            final(ans).force_fork == old(ans).force_fork,
    {
        let ghost start = feeder@;
        eat_blank_with_comment(feeder, core, &mut ans.text);
        let ghost a = feeder@;
        let len = feeder.scanner_name(core);
        if len == 0 {
            return false;
        }
        ans.name = feeder.consume(len);
        let ghost b = feeder@;
        assert(ans.name@ =~= slice(start.chars, a.cursor(), Some(b.cursor())));
        ans.text.append(ans.name.as_str());
        eat_blank_with_comment(feeder, core, &mut ans.text);
        proof {
            lemma_took_twice(start, a, b);
            lemma_took_twice(start, b, feeder@);
            assert(ans.text@ =~= old(ans).text@ + feeder@.consumed_since(start));
        }
        true
    }

    /// Takes one of the three expressions, and the blanks and a comment
    /// behind it.
    fn eat_part(feeder: &mut Feeder, ans: &mut Self, core: &mut ShellCore)
        requires
            old(feeder)@.wf(),
        ensures
            *final(core) == *old(core),
            final(feeder)@.follows(old(feeder)@),
            final(ans).text@ == old(ans).text@ + final(feeder)@.consumed_since(old(feeder)@),
            final(feeder)@.cursor() == skip_blank_comment(
                old(feeder)@.chars,
                expr_end(old(feeder)@.chars, old(feeder)@.cursor(), false, 0),
            ),
            old(feeder)@.cursor().leads(
                expr_end(old(feeder)@.chars, old(feeder)@.cursor(), false, 0),
                old(feeder)@.chars,
            ),
            final(ans).arithmetics@.len() == old(ans).arithmetics@.len() + 1,
            final(ans).parts() == old(ans).parts().push(
                part_at(old(feeder)@.chars, old(feeder)@.cursor()),
            ),
            final(ans).name == old(ans).name,
            final(ans).has_in == old(ans).has_in,
            final(ans).has_arithmetic == old(ans).has_arithmetic,
            final(ans).values == old(ans).values,
            final(ans).do_script == old(ans).do_script,
            final(ans).redirects == old(ans).redirects,
            final(ans).force_fork == old(ans).force_fork,
        decreases old(feeder)@.left(), old(feeder)@.unfed(), 5nat, 1nat,
    {
        let ghost start = feeder@;
        let ghost parts = ans.parts();
        let expr = ArithmeticExpr::parse(feeder, core);
        let ghost b = feeder@;
        match expr {
            Some(e) => {
                ans.text.append(e.text.as_str());
                if e.elements.len() == 0 {
                    ans.arithmetics.push(None);
                } else {
                    ans.arithmetics.push(Some(e));
                }
            },
            None => {
                ans.arithmetics.push(None);
            },
        }
        assert(ans.parts() =~= parts.push(part_at(start.chars, start.cursor())));
        eat_blank_with_comment(feeder, core, &mut ans.text);
        proof {
            lemma_took_twice(start, b, feeder@);
            assert(ans.text@ =~= old(ans).text@ + feeder@.consumed_since(start));
        }
    }

    fn eat_arithmetic(feeder: &mut Feeder, ans: &mut Self, core: &mut ShellCore) -> (ok: bool)
        requires
            old(feeder)@.wf(),
            old(ans).arithmetics@.len() == 0,
        ensures
            *final(core) == *old(core),
            final(feeder)@.follows(old(feeder)@),
            final(ans).text@ == old(ans).text@ + final(feeder)@.consumed_since(old(feeder)@),
            ok ==> final(ans).has_arithmetic && final(ans).arithmetics@.len() == 3,
            final(ans).has_in == old(ans).has_in,
            final(ans).values == old(ans).values,
            ok ==> final(ans).parts() == match behind(
                old(feeder)@.chars,
                old(feeder)@.cursor(),
                "(("@,
            ) {
                Some(x) => triple_parts(old(feeder)@.chars, x, Seq::empty()),
                None => Seq::empty(),
            },
            ended(ok, final(feeder)@) == match behind(
                old(feeder)@.chars,
                old(feeder)@.cursor(),
                "(("@,
            ) {
                Some(x) => triple_rest(old(feeder)@.chars, x, 0),
                None => None,
            },
            final(ans).name == old(ans).name,
            final(ans).do_script == old(ans).do_script,
            final(ans).redirects == old(ans).redirects,
            final(ans).force_fork == old(ans).force_fork,
        decreases old(feeder)@.left(), old(feeder)@.unfed(), 5nat, 1nat,
    {
        let ghost start = feeder@;
        if !feeder.starts_with("((") {
            assert(old(ans).text@ + feeder@.consumed_since(start) =~= old(ans).text@);
            return false;
        }
        proof {
            reveal_strlit("((");
        }
        feeder.take_into(&mut ans.text, 2);
        ans.has_arithmetic = true;
        let ghost opened = feeder@;
        assert(ans.parts() =~= Seq::<Option<ExprView>>::empty());
        loop
            invariant
                ans.has_in == old(ans).has_in,
                ans.values == old(ans).values,
                triple_parts(start.chars, feeder@.cursor(), ans.parts()) == triple_parts(
                    start.chars,
                    opened.cursor(),
                    Seq::empty(),
                ),
                opened.cursor() == start.cursor().after(2),
                behind(start.chars, start.cursor(), "(("@) == Some(opened.cursor()),
                triple_rest(start.chars, feeder@.cursor(), ans.arithmetics@.len() as nat)
                    == triple_rest(start.chars, opened.cursor(), 0),
                start == old(feeder)@,
                start.wf(),
                feeder@.follows(start),
                ans.text@ == old(ans).text@ + feeder@.consumed_since(start),
                feeder@.pos > start.pos,
                ans.has_arithmetic,
                ans.arithmetics@.len() < 3,
                ans.name == old(ans).name,
                ans.do_script == old(ans).do_script,
                ans.redirects == old(ans).redirects,
                ans.force_fork == old(ans).force_fork,
                *core == *old(core),
            decreases 3 - ans.arithmetics@.len(), feeder@.unfed(),
        {
            let ghost top = feeder@;
            proof {
                reveal(triple_rest);
                reveal(triple_parts);
            }
            eat_blank_with_comment(feeder, core, &mut ans.text);
            let ghost a = feeder@;
            proof {
                lemma_took_twice(start, top, a);
                assert(ans.text@ =~= old(ans).text@ + a.consumed_since(start));
            }
            if feeder.len() == 0 {
                if feeder.feed_additional_line(core) {
                    assert(feeder@.consumed_since(start) =~= a.consumed_since(start));
                    continue ;
                }
                return false;
            }
            Self::eat_part(feeder, ans, core);
            let ghost c = feeder@;
            proof {
                lemma_took_twice(start, a, c);
                assert(ans.text@ =~= old(ans).text@ + c.consumed_since(start));
                reveal_strlit(";");
                reveal_strlit("))");
            }
            if feeder.starts_with(";") {
                if ans.arithmetics.len() >= 3 {
                    return false;
                }
                feeder.take_into(&mut ans.text, 1);
                proof {
                    lemma_took_twice(start, c, feeder@);
                    assert(ans.text@ =~= old(ans).text@ + feeder@.consumed_since(start));
                }
            } else if feeder.starts_with("))") {
                if ans.arithmetics.len() != 3 {
                    return false;
                }
                feeder.take_into(&mut ans.text, 2);
                proof {
                    lemma_took_twice(start, c, feeder@);
                    assert(ans.text@ =~= old(ans).text@ + feeder@.consumed_since(start));
                }
                return true;
            } else {
                return false;
            }
        }
    }

    fn eat_in_part(feeder: &mut Feeder, ans: &mut Self, core: &mut ShellCore)
        requires
            old(feeder)@.wf(),
        ensures
            *final(core) == *old(core),
            final(feeder)@.follows(old(feeder)@),
            final(ans).text@ == old(ans).text@ + final(feeder)@.consumed_since(old(feeder)@),
            final(ans).name == old(ans).name,
            final(ans).has_arithmetic == old(ans).has_arithmetic,
            final(ans).arithmetics == old(ans).arithmetics,
            final(ans).do_script == old(ans).do_script,
            final(ans).redirects == old(ans).redirects,
            final(ans).force_fork == old(ans).force_fork,
            final(feeder)@.cursor() == match behind_keyword(
                old(feeder)@.chars,
                old(feeder)@.cursor(),
                "in"@,
            ) {
                Some(y) => list_rest(old(feeder)@.chars, y),
                None => old(feeder)@.cursor(),
            },
            final(ans).has_in == (old(ans).has_in || behind_keyword(
                old(feeder)@.chars,
                old(feeder)@.cursor(),
                "in"@,
            ) is Some),
            word_views(final(ans).values@) == match behind_keyword(
                old(feeder)@.chars,
                old(feeder)@.cursor(),
                "in"@,
            ) {
                Some(y) => list_words(old(feeder)@.chars, y, word_views(old(ans).values@)),
                None => word_views(old(ans).values@),
            },
        decreases old(feeder)@.left(), old(feeder)@.unfed(), 5nat, 1nat,
    {
        let ghost start = feeder@;
        if !feeder.starts_with_keyword("in") {
            assert(old(ans).text@ + feeder@.consumed_since(start) =~= old(ans).text@);
            return ;
        }
        proof {
            reveal_strlit("in");
        }
        feeder.take_into(&mut ans.text, 2);
        ans.has_in = true;
        let ghost opened = feeder@;
        loop
            invariant
                ans.has_in,
                list_words(start.chars, feeder@.cursor(), word_views(ans.values@)) == list_words(
                    start.chars,
                    opened.cursor(),
                    word_views(old(ans).values@),
                ),
                behind_keyword(start.chars, start.cursor(), "in"@) == Some(opened.cursor()),
                list_rest(start.chars, feeder@.cursor()) == list_rest(
                    start.chars,
                    opened.cursor(),
                ),
                start == old(feeder)@,
                start.wf(),
                feeder@.follows(start),
                ans.text@ == old(ans).text@ + feeder@.consumed_since(start),
                ans.name == old(ans).name,
                ans.has_arithmetic == old(ans).has_arithmetic,
                ans.arithmetics == old(ans).arithmetics,
                ans.do_script == old(ans).do_script,
                ans.redirects == old(ans).redirects,
                ans.force_fork == old(ans).force_fork,
                *core == *old(core),
            decreases feeder@.left(),
        {
            let ghost top = feeder@;
            proof {
                reveal(list_rest);
                reveal(list_words);
            }
            eat_blank_with_comment(feeder, core, &mut ans.text);
            let ghost a = feeder@;
            match Word::parse(feeder, core) {
                Some(w) => {
                    ans.text.append(w.text.as_str());
                    let ghost list = ans.values@;
                    ans.values.push(w);
                    assert(word_views(ans.values@) =~= word_views(list).push(w@));
                    proof {
                        lemma_took_twice(start, top, a);
                        lemma_took_twice(start, a, feeder@);
                        assert(ans.text@ =~= old(ans).text@ + feeder@.consumed_since(start));
                    }
                },
                None => {
                    proof {
                        lemma_took_twice(start, top, a);
                        assert(ans.text@ =~= old(ans).text@ + feeder@.consumed_since(start));
                    }
                    return ;
                },
            }
        }
    }

    fn eat_end(feeder: &mut Feeder, ans: &mut Self, core: &mut ShellCore) -> (ok: bool)
        requires
            old(feeder)@.wf(),
        ensures
            *final(core) == *old(core),
            final(feeder)@.follows(old(feeder)@),
            final(ans).text@ == old(ans).text@ + final(feeder)@.consumed_since(old(feeder)@),
            final(ans).name == old(ans).name,
            final(ans).has_in == old(ans).has_in,
            final(ans).has_arithmetic == old(ans).has_arithmetic,
            final(ans).values == old(ans).values,
            final(ans).arithmetics == old(ans).arithmetics,
            final(ans).do_script == old(ans).do_script,
            final(ans).redirects == old(ans).redirects,
            final(ans).force_fork == old(ans).force_fork,
            head_end(old(feeder)@.chars, old(feeder)@.cursor()) == ended(ok, final(feeder)@),
    {
        let ghost start = feeder@;
        eat_blank_with_comment(feeder, core, &mut ans.text);
        let ghost a = feeder@;
        proof {
            reveal(head_end);
            reveal_strlit(";");
            reveal_strlit("\n");
        }
        if feeder.starts_with(";") || feeder.starts_with("\n") {
            feeder.take_into(&mut ans.text, 1);
            let ghost b = feeder@;
            eat_space_with_comments(feeder, core, &mut ans.text);
            let ghost c = feeder@;
            proof {
                lemma_took_twice(start, a, b);
                lemma_took_twice(start, b, feeder@);
                assert(ans.text@ =~= old(ans).text@ + feeder@.consumed_since(start));
            }
            if feeder.len() == 0 && !feeder.feed_additional_line(core) {
                return false;
            }
            assert(feeder@.consumed_since(start) =~= c.consumed_since(start));
            true
        } else {
            false
        }
    }

    /// Takes the head of the command, behind `for`: a name and a list of
    /// words behind `in` or not, or three expressions between `((` and `))`.
    fn eat_head(feeder: &mut Feeder, ans: &mut Self, core: &mut ShellCore) -> (ok: bool)
        requires
            old(feeder)@.wf(),
            old(ans).arithmetics@.len() == 0,
            old(ans).values@.len() == 0,
            old(ans).name@.len() == 0,
            !old(ans).has_arithmetic,
            !old(ans).has_in,
        ensures
            *final(core) == *old(core),
            final(feeder)@.follows(old(feeder)@),
            final(ans).text@ == old(ans).text@ + final(feeder)@.consumed_since(old(feeder)@),
            ok && final(ans).has_arithmetic ==> final(ans).arithmetics@.len() == 3,
            ok && !final(ans).has_arithmetic ==> final(ans).name@.len() > 0,
            final(ans).do_script == old(ans).do_script,
            final(ans).redirects == old(ans).redirects,
            final(ans).force_fork == old(ans).force_fork,
            for_head(old(feeder)@.chars, old(feeder)@.cursor()) == ended(ok, final(feeder)@),
            ok ==> final(ans).head() == for_head_at(old(feeder)@.chars, old(feeder)@.cursor()),
        decreases old(feeder)@.left(), old(feeder)@.unfed(), 5nat, 2nat,
    {
        proof {
            reveal(for_head);
            reveal(for_head_at);
            reveal(triple_rest);
            reveal(list_rest);
        }
        let ghost start = feeder@;
        let ghost want = for_head_at(start.chars, start.cursor());
        assert(word_views(ans.values@) =~= Seq::<WordView>::empty());
        assert(ans.parts() =~= Seq::<Option<ExprView>>::empty());
        assert(ans.name@ =~= Seq::<char>::empty());
        if Self::eat_name(feeder, ans, core) {
            let ghost a = feeder@;
            assert(ans.name@ == want.name);
            Self::eat_in_part(feeder, ans, core);
            proof {
                lemma_took_twice(start, a, feeder@);
                assert(ans.text@ =~= old(ans).text@ + feeder@.consumed_since(start));
                assert(ans.has_in == want.has_in);
                assert(word_views(ans.values@) == want.values);
                assert(ans.head() == want);
            }
            true
        } else {
            let ghost a = feeder@;
            let ok = Self::eat_arithmetic(feeder, ans, core);
            proof {
                lemma_took_twice(start, a, feeder@);
                assert(ans.text@ =~= old(ans).text@ + feeder@.consumed_since(start));
                if ok {
                    assert(ans.parts() == want.parts);
                    assert(ans.head() == want);
                }
            }
            ok
        }
    }

    /// Takes `for`, the head of the command, and what ends the head.
    fn eat_front(feeder: &mut Feeder, ans: &mut Self, core: &mut ShellCore) -> (ok: bool)
        requires
            old(feeder)@.wf(),
            old(ans).text@.len() == 0,
            old(ans).arithmetics@.len() == 0,
            old(ans).values@.len() == 0,
            old(ans).name@.len() == 0,
            !old(ans).has_arithmetic,
            !old(ans).has_in,
        ensures
            *final(core) == *old(core),
            final(feeder)@.follows(old(feeder)@),
            for_front(old(feeder)@.chars, old(feeder)@.cursor()) == ended(ok, final(feeder)@),
            ok ==> final(ans).text@ == final(feeder)@.consumed_since(old(feeder)@)
                && final(feeder)@.pos > old(feeder)@.pos,
            ok ==> crate::feeder::keyword_at(old(feeder)@.remaining(), "for"@),
            ok ==> final(ans).head() == for_head_at(
                old(feeder)@.chars,
                old(feeder)@.cursor().after(3),
            ),
            ok && final(ans).has_arithmetic ==> final(ans).arithmetics@.len() == 3,
            ok && !final(ans).has_arithmetic ==> final(ans).name@.len() > 0,
            final(ans).do_script == old(ans).do_script,
            final(ans).redirects == old(ans).redirects,
            final(ans).force_fork == old(ans).force_fork,
        decreases old(feeder)@.left(), old(feeder)@.unfed(), 5nat, 4nat,
    {
        proof {
            reveal(for_front);
            reveal(for_head);
            reveal_strlit("for");
        }
        if !feeder.starts_with_keyword("for") {
            return false;
        }
        let ghost start = feeder@;
        ans.text = feeder.consume(3);
        let ghost a = feeder@;
        assert(behind_keyword(start.chars, start.cursor(), "for"@) == Some(a.cursor()));
        if !Self::eat_head(feeder, ans, core) {
            return false;
        }
        let ghost b = feeder@;
        assert(for_head(start.chars, a.cursor()) == Some(b.cursor()));
        let ghost head = ans.head();
        if !Self::eat_end(feeder, ans, core) {
            return false;
        }
        proof {
            lemma_took_twice(start, a, b);
            lemma_took_twice(start, b, feeder@);
            assert(ans.text@ =~= feeder@.consumed_since(start));
            assert(ans.head() == head);
        }
        true
    }

    /// Takes the `for` command with which the text begins: `for`, then a name
    /// and a list of words behind `in` or not, or three expressions between
    /// `((` and `))`; then `;` or a newline, `do`, the body, `done`, and
    /// redirections.
    pub fn parse(feeder: &mut Feeder, core: &mut ShellCore) -> (r: Option<ForCommand>)
        requires
            old(feeder)@.wf(),
        ensures
            *final(core) == *old(core),
            for_end(old(feeder)@.chars, old(feeder)@.cursor()) == ended(
                r is Some,
                final(feeder)@,
            ),
            match r {
                Some(c) => final(feeder)@.took(old(feeder)@, c.text@) && c.text@.len() > 0
                    && c.wf() && !c.force_fork && crate::feeder::keyword_at(
                    old(feeder)@.remaining(),
                    "for"@,
                ) && c.head() == for_head_at(old(feeder)@.chars, old(feeder)@.cursor().after(3))
                    && c.do_script->0@ == do_body_at(
                    old(feeder)@.chars,
                    body_start(old(feeder)@.chars, old(feeder)@.cursor()),
                ).0 && redirect_views(c.redirects@) == redirects_at(
                    old(feeder)@.chars,
                    do_body_at(
                        old(feeder)@.chars,
                        body_start(old(feeder)@.chars, old(feeder)@.cursor()),
                    ).1,
                    Seq::empty(),
                ) && for_view(c) == for_at(old(feeder)@.chars, old(feeder)@.cursor()),
                None => final(feeder)@ == old(feeder)@,
            },
        decreases old(feeder)@.left(), old(feeder)@.unfed(), 6nat,
    {
        proof {
            reveal(for_end);
            reveal(for_at);
            reveal(for_front);
        }
        let pos = feeder.pos;
        let limit = feeder.limit;
        let ghost start = feeder@;
        let mut ans = Self::new();
        if !Self::eat_front(feeder, &mut ans, core) {
            feeder.reset(pos, limit);
            return None;
        }
        let ghost d = feeder@;
        assert(redirect_views(ans.redirects@) =~= Seq::<RedirectView>::empty());
        assert(d.cursor() == body_start(start.chars, start.cursor()));
        let ghost head = ans.head();
        match eat_do_body(feeder, core, &mut ans.text, &mut ans.redirects) {
            Some(body) => {
                ans.do_script = Some(body);
                proof {
                    lemma_took_twice(start, d, feeder@);
                    assert(ans.text@ =~= feeder@.consumed_since(start));
                }
                Some(ans)
            },
            None => {
                feeder.reset(pos, limit);
                None
            },
        }
    }
}

} // verus!
