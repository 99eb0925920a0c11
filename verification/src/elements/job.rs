//! Jobs: pipelines joined by `&&` and `||`.

use vstd::prelude::*;
use crate::elements::pipeline::pipeline_view;
use crate::elements::pipeline::pipeline_at;
use crate::elements::pipeline::PipelineView;
use crate::feeder::scanner::first_match;
use crate::feeder::scanner::and_or_symbols;
use crate::elements::grammar::slice;
use crate::elements::grammar::skip_to_next;
use crate::elements::grammar::skip_blank;
use crate::elements::grammar::pipeline_end;
use crate::elements::grammar::onward;
use crate::elements::grammar::Cursor;
use crate::elements::command::eat_to_next;
use crate::elements::grammar::ended;
use crate::elements::grammar::job_rest;
use crate::elements::grammar::step;
use crate::elements::grammar::job_end;
use crate::elements::pipeline::Pipeline;
use crate::feeder::Feeder;
use crate::feeder::lemma_took_twice;
use crate::shell::ShellCore;
use crate::text::str_is;
use crate::text::views;

verus! {

#[derive(Debug)]
pub struct Job {
    /// The pipelines from left to right.
    pub pipelines: Vec<Pipeline>,
    /// The operators between the pipelines, `&&` or `||`.
    pub pipeline_ends: Vec<String>,
    /// The source text.
    pub text: String,
}

/// Whether the pipeline behind the operator `op` runs after the status
/// `status`: behind `&&` after 0, behind `||` after anything else.
pub open spec fn runs_after(op: Seq<char>, status: i32) -> bool {
    if op == "&&"@ {
        status == 0
    } else if op == "||"@ {
        status != 0
    } else {
        true
    }
}

/// The pipeline that runs next once the status is `status` and the operator
/// `i` is the first that has not been looked at: the one behind the first
/// operator from there on that lets its pipeline run. `None` where no
/// operator does. A pipeline that is passed over leaves the status as it is.
pub open spec fn next_pipeline(ends: Seq<Seq<char>>, i: int, status: i32) -> Option<int>
    decreases ends.len() - i,
{
    if i < 0 || i >= ends.len() {
        None
    } else if runs_after(ends[i], status) {
        Some(i + 1)
    } else {
        next_pipeline(ends, i + 1, status)
    }
}

/// A job as plain mathematical data: its text, its pipelines, and the
/// operators between them.
pub struct JobView {
    pub text: Seq<char>,
    pub pipelines: Seq<PipelineView>,
    pub ends: Seq<Seq<char>>,
}

/// The views of a list of pipelines.
pub open spec fn pipeline_views(v: Seq<Pipeline>) -> Seq<PipelineView>
    decreases v,
{
    Seq::new(v.len(), |i: int| if 0 <= i < v.len() { pipeline_view(v[i]) } else { arbitrary() })
}

/// The view of a job.
pub open spec fn job_view(j: Job) -> JobView
    decreases j,
{
    JobView { text: j.text@, pipelines: pipeline_views(j.pipelines@), ends: views(j.pipeline_ends@) }
}

/// The pipelines of a job that goes on at `c`, and the operators between
/// them, behind the pipelines `pipelines` and the operators `ends`.
#[verifier::opaque]
pub open spec fn job_parts(
    chars: Seq<char>,
    c: Cursor,
    pipelines: Seq<PipelineView>,
    ends: Seq<Seq<char>>,
) -> (Seq<PipelineView>, Seq<Seq<char>>)
    decreases chars.len() - c.pos, chars.len() - c.limit, 9nat, 0nat,
{
    let b = skip_blank(chars, c);
    match step(chars, b, first_match(b.sees(chars), and_or_symbols())) {
        Some(o) => {
            let n = skip_to_next(chars, o);
            if !c.within(chars) || !o.leads(n, chars) {
                (pipelines, ends)
            } else {
                match onward(chars, n, pipeline_end(chars, n)) {
                    Some(p) => job_parts(
                        chars,
                        p,
                        pipelines.push(pipeline_at(chars, n)),
                        ends.push(slice(chars, b, Some(o))),
                    ),
                    None => (pipelines, ends),
                }
            }
        },
        None => (pipelines, ends),
    }
}

/// The job at `c`, where one begins there.
#[verifier::opaque]
pub open spec fn job_at(chars: Seq<char>, c: Cursor) -> JobView
    decreases chars.len() - c.pos, chars.len() - c.limit, 9nat, 1nat,
{
    let text = slice(chars, c, job_end(chars, c));
    match onward(chars, c, pipeline_end(chars, c)) {
        Some(p) => {
            let (pipelines, ends) = job_parts(chars, p, seq![pipeline_at(chars, c)], Seq::empty());
            JobView { text, pipelines, ends }
        },
        None => JobView { text, pipelines: Seq::empty(), ends: Seq::empty() },
    }
}

impl Job {
    /// How running the job goes on: the pipeline that runs after the pipeline
    /// `i` has ended with `status`, or `None` where the job is over.
    pub fn exec(&self, i: usize, status: i32) -> (r: Option<usize>)
        requires
            self.wf(),
            i < self.pipelines@.len(),
        ensures
            match next_pipeline(views(self.pipeline_ends@), i as int, status) {
                Some(j) => r == Some(j as usize) && i < j < self.pipelines@.len(),
                None => r is None,
            },
    {
        let ghost ends = views(self.pipeline_ends@);
        let mut k: usize = i;
        while k < self.pipeline_ends.len()
            invariant
                i <= k <= self.pipeline_ends.len(),
                self.wf(),
                ends == views(self.pipeline_ends@),
                next_pipeline(ends, k as int, status) == next_pipeline(ends, i as int, status),
            decreases self.pipeline_ends.len() - k,
        {
            let op = self.pipeline_ends[k].as_str();
            let runs = if str_is(op, "&&") {
                status == 0
            } else if str_is(op, "||") {
                status != 0
            } else {
                true
            };
            if runs {
                return Some(k + 1);
            }
            k += 1;
        }
        None
    }

    /// A job has a pipeline, and an operator between each two pipelines.
    pub open spec fn wf(&self) -> bool {
        self.pipelines@.len() > 0 && self.pipeline_ends@.len() + 1 == self.pipelines@.len()
    }

    /// Takes the job with which the text begins: pipelines with `&&` or `||`
    /// between them. After an operator the next pipeline may stand on a later
    /// line.
    pub fn parse(feeder: &mut Feeder, core: &mut ShellCore) -> (r: Option<Job>)
        requires
            old(feeder)@.wf(),
        ensures
            *final(core) == *old(core),
            job_end(old(feeder)@.chars, old(feeder)@.cursor()) == ended(
                r is Some,
                final(feeder)@,
            ),
            match r {
                Some(j) => final(feeder)@.took(old(feeder)@, j.text@) && j.text@.len() > 0
                    && j.wf() && job_view(j) == job_at(old(feeder)@.chars, old(feeder)@.cursor()),
                None => final(feeder)@ == old(feeder)@,
            },
        decreases old(feeder)@.left(), old(feeder)@.unfed(), 9nat,
    {
        proof {
            reveal(job_end);
            reveal(job_rest);
            reveal(job_at);
            reveal(job_parts);
        }
        let pos = feeder.pos;
        let limit = feeder.limit;
        let ghost start = feeder@;
        let first = match Pipeline::parse(feeder, core) {
            Some(p) => p,
            None => {
                return None;
            },
        };
        let mut text = first.text.clone();
        let mut pipelines: Vec<Pipeline> = Vec::new();
        let mut pipeline_ends: Vec<String> = Vec::new();
        let ghost first_view = pipeline_view(first);
        pipelines.push(first);
        assert(pipeline_views(pipelines@) =~= seq![first_view]);
        assert(views(pipeline_ends@) =~= Seq::<Seq<char>>::empty());
        loop
            invariant_except_break
                job_parts(
                    start.chars,
                    feeder@.cursor(),
                    pipeline_views(pipelines@),
                    views(pipeline_ends@),
                ) == (
                    job_at(start.chars, start.cursor()).pipelines,
                    job_at(start.chars, start.cursor()).ends,
                ),
                job_rest(start.chars, feeder@.cursor()) == job_end(start.chars, start.cursor()),
            invariant
                start == old(feeder)@,
                start.wf(),
                pos == start.pos,
                limit == start.limit,
                feeder@.follows(start),
                text@ == feeder@.consumed_since(start),
                text@.len() > 0,
                pipelines@.len() > 0,
                pipeline_ends@.len() + 1 == pipelines@.len(),
                *core == *old(core),
            ensures
                job_end(start.chars, start.cursor()) == Some(feeder@.cursor()),
                (pipeline_views(pipelines@), views(pipeline_ends@)) == (
                    job_at(start.chars, start.cursor()).pipelines,
                    job_at(start.chars, start.cursor()).ends,
                ),
            decreases feeder@.left(),
        {
            let ghost before = feeder@;
            proof {
                reveal(job_rest);
                reveal(job_parts);
            }
            let at = feeder.pos;
            let at_limit = feeder.limit;
            let mut piece = String::new();
            let n = feeder.scanner_blank(core);
            feeder.take_into(&mut piece, n);
            let ghost c1 = feeder@;
            let len = feeder.scanner_and_or(core);
            if len == 0 {
                feeder.reset(at, at_limit);
                assert(feeder@ == before);
                break ;
            }
            let op = feeder.consume(len);
            piece.append(op.as_str());
            let ghost c2 = feeder@;
            eat_to_next(feeder, core, &mut piece);
            let ghost c3 = feeder@;
            proof {
                lemma_took_twice(before, c1, c2);
                lemma_took_twice(before, c2, c3);
                assert(piece@ =~= c3.consumed_since(before));
                assert(step(start.chars, c1.cursor(), len as nat) == Some(c2.cursor()));
            }
            match Pipeline::parse(feeder, core) {
                Some(p) => {
                    piece.append(p.text.as_str());
                    text.append(piece.as_str());
                    proof {
                        lemma_took_twice(before, c3, feeder@);
                        lemma_took_twice(start, before, feeder@);
                        assert(text@ =~= feeder@.consumed_since(start));
                    }
                    let ghost trees = pipeline_views(pipelines@);
                    let ghost ops = views(pipeline_ends@);
                    let ghost tree = pipeline_view(p);
                    let ghost sign = op@;
                    pipelines.push(p);
                    pipeline_ends.push(op);
                    assert(pipeline_views(pipelines@) =~= trees.push(tree));
                    assert(views(pipeline_ends@) =~= ops.push(sign));
                    assert(tree == pipeline_at(start.chars, c3.cursor()));
                    assert(sign =~= slice(start.chars, c1.cursor(), Some(c2.cursor())));
                },
                None => {
                    feeder.reset(pos, limit);
                    return None;
                },
            }
        }
        Some(Job { pipelines, pipeline_ends, text })
    }
}

} // verus!
