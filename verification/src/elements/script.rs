//! Scripts: jobs one after another.

use vstd::prelude::*;
use crate::elements::job::job_view;
use crate::elements::job::job_at;
use crate::elements::job::JobView;
use crate::elements::grammar::body_end;
use crate::elements::grammar::slice;
use crate::elements::grammar::skip_space;
use crate::elements::grammar::onward;
use crate::elements::grammar::job_end;
use crate::elements::grammar::fed;
use crate::elements::grammar::Cursor;
use crate::elements::grammar::ScriptEnd;
use crate::elements::grammar::ended;
use crate::elements::grammar::skip_job_end;
use crate::elements::grammar::script_rest;
use crate::elements::grammar::script_end;
use crate::elements::command::eat_space_with_comments;
use crate::elements::job::Job;
use crate::feeder::Feeder;
use crate::feeder::keyword_at;
use crate::feeder::lemma_took_twice;
use crate::shell::ShellCore;
use crate::text::views;

verus! {

#[derive(Debug)]
pub struct Script {
    /// The jobs in the order in which they run.
    pub jobs: Vec<Job>,
    /// What ends each job: `;`, `&`, a newline, or nothing.
    pub job_ends: Vec<String>,
    /// The source text.
    pub text: String,
}

/// Whether the text begins with one of the words that end a script.
pub open spec fn at_end_word(s: Seq<char>, ends: Seq<Seq<char>>) -> bool {
    exists|i: int| 0 <= i < ends.len() && ends_here(s, #[trigger] ends[i])
}

/// Whether the end word `end` stands at the start of `s`. A closing
/// parenthesis ends a script wherever it stands; any other word has to end
/// where it ends.
pub open spec fn ends_here(s: Seq<char>, end: Seq<char>) -> bool {
    if end == ")"@ {
        end.is_prefix_of(s)
    } else {
        keyword_at(s, end)
    }
}

/// The views of a list of jobs.
pub open spec fn job_views(v: Seq<Job>) -> Seq<JobView>
    decreases v,
{
    Seq::new(v.len(), |i: int| if 0 <= i < v.len() { job_view(v[i]) } else { arbitrary() })
}

/// The views of a list of scripts.
pub open spec fn script_views(v: Seq<Script>) -> Seq<ScriptView>
    decreases v,
{
    Seq::new(v.len(), |i: int| if 0 <= i < v.len() { script_view(v[i]) } else { arbitrary() })
}

/// The view of a script.
pub open spec fn script_view(s: Script) -> ScriptView
    decreases s,
{
    ScriptView { text: s.text@, jobs: job_views(s.jobs@), job_ends: views(s.job_ends@) }
}

/// The view of a script that may be missing.
pub open spec fn script_option(s: Option<Script>) -> Option<ScriptView>
    decreases s,
{
    match s {
        Some(x) => Some(script_view(x)),
        None => None,
    }
}

/// The jobs of a script that goes on at `c`, and what ends each of them,
/// behind the jobs `jobs` and their ends `job_ends`.
#[verifier::opaque]
pub open spec fn script_parts(
    chars: Seq<char>,
    c: Cursor,
    ends: Seq<Seq<char>>,
    jobs: Seq<JobView>,
    job_ends: Seq<Seq<char>>,
) -> (Seq<JobView>, Seq<Seq<char>>)
    decreases chars.len() - c.pos, chars.len() - c.limit, 10nat, 0nat,
{
    let a = skip_space(chars, c);
    if !c.within(chars) || !c.leads(a, chars) || at_end_word(a.sees(chars), ends) {
        (jobs, job_ends)
    } else if a.sees(chars).len() == 0 {
        match onward(chars, c, fed(chars, a)) {
            Some(f) => script_parts(chars, f, ends, jobs, job_ends),
            None => (jobs, job_ends),
        }
    } else {
        match onward(chars, a, job_end(chars, a)) {
            Some(j) => script_parts(
                chars,
                skip_job_end(chars, j),
                ends,
                jobs.push(job_at(chars, a)),
                job_ends.push(slice(chars, j, Some(skip_job_end(chars, j)))),
            ),
            None => (jobs, job_ends),
        }
    }
}

/// A script as plain mathematical data: its text, its jobs, and what ends
/// each job.
pub struct ScriptView {
    pub text: Seq<char>,
    pub jobs: Seq<JobView>,
    pub job_ends: Seq<Seq<char>>,
}

impl View for Script {
    type V = ScriptView;

    open spec fn view(&self) -> ScriptView {
        script_view(*self)
    }
}

/// The script at `c` that runs up to one of the words in `ends`, or as far
/// as jobs follow where there are no such words.
#[verifier::opaque]
pub open spec fn script_at(chars: Seq<char>, c: Cursor, ends: Seq<Seq<char>>) -> ScriptView
    decreases chars.len() - c.pos, chars.len() - c.limit, 10nat, 1nat,
{
    let (jobs, job_ends) = script_parts(chars, c, ends, Seq::empty(), Seq::empty());
    ScriptView { text: slice(chars, c, body_end(chars, c, ends)), jobs, job_ends }
}

/// Where a script ends is where its last job ends.
proof fn lemma_body_end(chars: Seq<char>, c: Cursor, ends: Seq<Seq<char>>, e: ScriptEnd)
    requires
        script_rest(chars, c, ends, 0) == Some(e),
        c.leads(e.c, chars),
    ensures
        body_end(chars, c, ends) == Some(e.c),
{
    reveal(body_end);
    reveal(script_rest);
}

impl Script {
    /// Whether the job `i` is sent to the background: a `&` ends it.
    pub fn in_background(&self, i: usize) -> (b: bool)
        requires
            self.wf(),
            i < self.jobs@.len(),
        ensures
            b == self.job_ends@[i as int]@.contains('&'),
    {
        let end = crate::text::to_chars(self.job_ends[i].as_str());
        crate::text::find_char(&end, '&').is_some()
    }

    /// A script has an end for each of its jobs.
    pub open spec fn wf(&self) -> bool {
        self.job_ends@.len() == self.jobs@.len()
    }

    /// Whether the text begins with one of the words in `ends`.
    pub fn at_end(feeder: &Feeder, ends: &Vec<String>) -> (b: bool)
        requires
            feeder@.wf(),
        ensures
            b == at_end_word(feeder@.remaining(), views(ends@)),
    {
        let mut i: usize = 0;
        while i < ends.len()
            invariant
                i <= ends.len(),
                feeder@.wf(),
                forall|k: int| 0 <= k < i ==> !ends_here(feeder@.remaining(), #[trigger] views(ends@)[k]),
            decreases ends.len() - i,
        {
            let here = if crate::text::str_is(ends[i].as_str(), ")") {
                feeder.starts_with(ends[i].as_str())
            } else {
                feeder.starts_with_keyword(ends[i].as_str())
            };
            if here {
                assert(ends_here(feeder@.remaining(), views(ends@)[i as int]));
                return true;
            }
            i += 1;
        }
        false
    }

    /// Takes the script with which the text begins, to the end of the input.
    /// `None` where it holds no job.
    pub fn parse(feeder: &mut Feeder, core: &mut ShellCore) -> (r: Option<Script>)
        requires
            old(feeder)@.wf(),
        ensures
            *final(core) == *old(core),
            script_end(old(feeder)@.chars, old(feeder)@.cursor()) == ended(
                r is Some,
                final(feeder)@,
            ),
            match r {
                Some(s) => final(feeder)@.took(old(feeder)@, s.text@) && s.wf() && s.jobs@.len()
                    > 0 && s@ == script_at(
                    old(feeder)@.chars,
                    old(feeder)@.cursor(),
                    Seq::empty(),
                ),
                None => final(feeder)@ == old(feeder)@,
            },
        decreases old(feeder)@.left(), old(feeder)@.unfed(), 11nat,
    {
        let ends: Vec<String> = Vec::new();
        assert(views(ends@) =~= Seq::<Seq<char>>::empty());
        let pos = feeder.pos;
        let limit = feeder.limit;
        match Self::parse_until(feeder, core, &ends) {
            Some(s) => {
                if s.jobs.len() == 0 {
                    feeder.reset(pos, limit);
                    None
                } else {
                    Some(s)
                }
            },
            None => None,
        }
    }

    /// Takes the script with which the text begins, up to the first of the
    /// words in `ends` that stands where a command could begin; without such
    /// words, as far as jobs follow. The end word is left in the text. Where
    /// end words are given and the text runs out before one of them, more
    /// lines are asked for, and without them there is no script.
    pub fn parse_until(feeder: &mut Feeder, core: &mut ShellCore, ends: &Vec<String>) -> (r: Option<
        Script,
    >)
        requires
            old(feeder)@.wf(),
        ensures
            *final(core) == *old(core),
            match r {
                Some(s) => final(feeder)@.took(old(feeder)@, s.text@) && s.wf() && (ends@.len()
                    > 0 ==> at_end_word(final(feeder)@.remaining(), views(ends@))),
                None => final(feeder)@ == old(feeder)@,
            },
            script_rest(old(feeder)@.chars, old(feeder)@.cursor(), views(ends@), 0) == match r {
                Some(s) => Some(ScriptEnd { c: final(feeder)@.cursor(), jobs: s.jobs@.len() }),
                None => None,
            },
            r matches Some(s) ==> s@ == script_at(
                old(feeder)@.chars,
                old(feeder)@.cursor(),
                views(ends@),
            ),
        decreases old(feeder)@.left(), old(feeder)@.unfed(), 10nat,
    {
        let pos = feeder.pos;
        let limit = feeder.limit;
        let ghost start = feeder@;
        let ghost words = views(ends@);
        let mut text = String::new();
        let mut jobs: Vec<Job> = Vec::new();
        let mut job_ends: Vec<String> = Vec::new();
        assert(feeder@.consumed_since(start) =~= text@);
        assert(job_views(jobs@) =~= Seq::<JobView>::empty());
        assert(views(job_ends@) =~= Seq::<Seq<char>>::empty());
        loop
            invariant
                script_parts(
                    start.chars,
                    feeder@.cursor(),
                    words,
                    job_views(jobs@),
                    views(job_ends@),
                ) == script_parts(start.chars, start.cursor(), words, Seq::empty(), Seq::empty()),
                words == views(ends@),
                words.len() == ends@.len(),
                script_rest(start.chars, feeder@.cursor(), words, jobs@.len() as nat)
                    == script_rest(start.chars, start.cursor(), words, 0),
                start == old(feeder)@,
                start.wf(),
                pos == start.pos,
                limit == start.limit,
                feeder@.follows(start),
                text@ == feeder@.consumed_since(start),
                job_ends@.len() == jobs@.len(),
                *core == *old(core),
            decreases feeder@.left(), feeder@.unfed(),
        {
            let ghost before = feeder@;
            proof {
                reveal(script_rest);
                reveal(script_parts);
                reveal(script_at);
            }
            eat_space_with_comments(feeder, core, &mut text);
            let ghost a = feeder@;
            proof {
                lemma_took_twice(start, before, a);
                assert(text@ =~= a.consumed_since(start));
            }
            if Self::at_end(feeder, ends) {
                proof {
                    lemma_body_end(
                        start.chars,
                        start.cursor(),
                        words,
                        ScriptEnd { c: feeder@.cursor(), jobs: jobs@.len() },
                    );
                }
                return Some(Script { jobs, job_ends, text });
            }
            if feeder.len() == 0 {
                if feeder.feed_additional_line(core) {
                    assert(feeder@.consumed_since(start) =~= a.consumed_since(start));
                    continue ;
                }
                if ends.len() == 0 {
                    proof {
                    lemma_body_end(
                        start.chars,
                        start.cursor(),
                        words,
                        ScriptEnd { c: feeder@.cursor(), jobs: jobs@.len() },
                    );
                }
                return Some(Script { jobs, job_ends, text });
                }
                feeder.reset(pos, limit);
                return None;
            }
            match Job::parse(feeder, core) {
                Some(job) => {
                    text.append(job.text.as_str());
                    let ghost b = feeder@;
                    let mut end = String::new();
                    let n = feeder.scanner_blank(core);
                    feeder.take_into(&mut end, n);
                    let ghost c = feeder@;
                    let m = feeder.scanner_job_end();
                    feeder.take_into(&mut end, m);
                    text.append(end.as_str());
                    assert(feeder@.cursor() == skip_job_end(start.chars, b.cursor()));
                    proof {
                        lemma_took_twice(start, a, b);
                        lemma_took_twice(b, c, feeder@);
                        lemma_took_twice(start, b, feeder@);
                        assert(text@ =~= feeder@.consumed_since(start));
                    }
                    let ghost trees = job_views(jobs@);
                    let ghost marks = views(job_ends@);
                    let ghost tree = job_view(job);
                    let ghost mark = end@;
                    jobs.push(job);
                    job_ends.push(end);
                    assert(job_views(jobs@) =~= trees.push(tree));
                    assert(views(job_ends@) =~= marks.push(mark));
                    assert(tree == job_at(start.chars, a.cursor()));
                    assert(mark =~= slice(start.chars, b.cursor(), Some(feeder@.cursor())));
                },
                None => {
                    if ends.len() == 0 {
                        proof {
                    lemma_body_end(
                        start.chars,
                        start.cursor(),
                        words,
                        ScriptEnd { c: feeder@.cursor(), jobs: jobs@.len() },
                    );
                }
                return Some(Script { jobs, job_ends, text });
                    }
                    feeder.reset(pos, limit);
                    return None;
                },
            }
        }
    }
}

} // verus!
