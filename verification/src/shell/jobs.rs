//! The table of jobs: the pipelines that run in the background or were
//! stopped, each under a number that is never given twice.

use vstd::prelude::*;
use crate::shell::WaitOutcome;

verus! {

#[derive(Debug, Clone, Copy, PartialEq, Eq, Structural)]
pub enum JobState {
    Running,
    Stopped,
    Done,
}

#[derive(Debug)]
pub struct JobEntry {
    /// The number of the job.
    pub id: u64,
    /// The processes of the pipeline, left to right.
    pub pids: Vec<i32>,
    /// What is known of how each process ended; `None` while it runs.
    pub statuses: Vec<Option<WaitOutcome>>,
    /// The command as it was written.
    pub text: String,
    pub state: JobState,
}

/// A job as plain mathematical data.
pub struct JobView {
    pub id: u64,
    pub pids: Seq<i32>,
    pub statuses: Seq<Option<WaitOutcome>>,
    pub text: Seq<char>,
    pub state: JobState,
}

impl View for JobEntry {
    type V = JobView;

    open spec fn view(&self) -> JobView {
        JobView {
            id: self.id,
            pids: self.pids@,
            statuses: self.statuses@,
            text: self.text@,
            state: self.state,
        }
    }
}

#[derive(Debug)]
pub struct JobTable {
    pub entries: Vec<JobEntry>,
    /// The number that the next job gets.
    pub next_id: u64,
}

/// The table as plain mathematical data.
pub struct TableView {
    pub entries: Seq<JobView>,
    pub next_id: u64,
}

impl View for JobTable {
    type V = TableView;

    open spec fn view(&self) -> TableView {
        TableView { entries: self.entries@.map_values(|e: JobEntry| e@), next_id: self.next_id }
    }
}

/// The state of a job of whose processes this is known: stopped where one of
/// them was stopped, done where all have ended, else running.
pub open spec fn state_of(statuses: Seq<Option<WaitOutcome>>) -> JobState {
    if exists|i: int| 0 <= i < statuses.len() && statuses[i] == Some(WaitOutcome::Stopped) {
        JobState::Stopped
    } else if forall|i: int| 0 <= i < statuses.len() ==> (#[trigger] statuses[i]) is Some {
        JobState::Done
    } else {
        JobState::Running
    }
}

impl TableView {
    /// Every job has a status for each of its processes, the numbers of the
    /// jobs grow, and the next number is larger than all of them.
    pub open spec fn wf(self) -> bool {
        &&& forall|i: int|
            0 <= i < self.entries.len() ==> (#[trigger] self.entries[i]).pids.len()
                == self.entries[i].statuses.len() && self.entries[i].id < self.next_id
        &&& forall|i: int, j: int|
            0 <= i < j < self.entries.len() ==> (#[trigger] self.entries[i]).id < (
            #[trigger] self.entries[j]).id
    }
}

fn job_state(statuses: &Vec<Option<WaitOutcome>>) -> (s: JobState)
    ensures
        s == state_of(statuses@),
{
    let mut all = true;
    let mut i: usize = 0;
    while i < statuses.len()
        invariant
            i <= statuses.len(),
            forall|k: int| 0 <= k < i ==> statuses@[k] != Some(WaitOutcome::Stopped),
            all == (forall|k: int| 0 <= k < i ==> (#[trigger] statuses@[k]) is Some),
        decreases statuses.len() - i,
    {
        match statuses[i] {
            Some(WaitOutcome::Stopped) => {
                return JobState::Stopped;
            },
            Some(_) => {},
            None => {
                all = false;
            },
        }
        i += 1;
    }
    if all {
        JobState::Done
    } else {
        JobState::Running
    }
}

fn position_of(pids: &Vec<i32>, pid: i32) -> (r: Option<usize>)
    ensures
        match r {
            Some(k) => k < pids@.len() && pids@[k as int] == pid,
            None => !pids@.contains(pid),
        },
{
    let mut k: usize = 0;
    while k < pids.len()
        invariant
            k <= pids.len(),
            forall|x: int| 0 <= x < k ==> pids@[x] != pid,
        decreases pids.len() - k,
    {
        if pids[k] == pid {
            return Some(k);
        }
        k += 1;
    }
    None
}

/// An entry that stands for no job: it has the number 0, no processes and no
/// text. It fills the place of an entry while that entry is taken out of the
/// table.
fn placeholder() -> (e: JobEntry)
    ensures
        e@ == (JobView {
            id: 0,
            pids: Seq::empty(),
            statuses: Seq::empty(),
            text: Seq::empty(),
            state: JobState::Running,
        }),
{
    JobEntry {
        id: 0,
        pids: Vec::new(),
        statuses: Vec::new(),
        text: String::new(),
        state: JobState::Running,
    }
}

impl JobTable {
    /// A table without jobs, whose first job will get the number 1.
    pub fn new() -> (t: JobTable)
        ensures
            t@.entries.len() == 0,
            t@.next_id == 1,
            t@.wf(),
    {
        JobTable { entries: Vec::new(), next_id: 1 }
    }

    /// Enters a pipeline with these processes as a new job, which runs. The
    /// result is the number of the job.
    pub fn add(&mut self, pids: Vec<i32>, text: &str) -> (id: u64)
        requires
            old(self)@.wf(),
            old(self).next_id < u64::MAX,
        ensures
            id == old(self).next_id,
            final(self)@.next_id == id + 1,
            final(self)@.entries == old(self)@.entries.push(
                JobView {
                    id,
                    pids: pids@,
                    statuses: Seq::new(pids@.len(), |i: int| None::<WaitOutcome>),
                    text: text@,
                    state: JobState::Running,
                },
            ),
            final(self)@.wf(),
    {
        let id = self.next_id;
        let mut statuses: Vec<Option<WaitOutcome>> = Vec::new();
        let mut i: usize = 0;
        while i < pids.len()
            invariant
                i <= pids.len(),
                statuses@ == Seq::new(i as nat, |k: int| None::<WaitOutcome>),
            decreases pids.len() - i,
        {
            statuses.push(None);
            i += 1;
            assert(statuses@ =~= Seq::new(i as nat, |k: int| None::<WaitOutcome>));
        }
        let entry = JobEntry {
            id,
            pids,
            statuses,
            text: String::from_str(text),
            state: JobState::Running,
        };
        let ghost before = self@.entries;
        self.entries.push(entry);
        self.next_id = id + 1;
        assert(self@.entries =~= before.push(entry@));
        id
    }

    /// Notes how the process `pid` ended or that it was stopped, in the first
    /// job that has it, and brings the state of that job up to date. The
    /// result is the number of the job; `None`, and no change, where no job
    /// has the process.
    pub fn note(&mut self, pid: i32, outcome: WaitOutcome) -> (r: Option<u64>)
        requires
            old(self)@.wf(),
        ensures
            final(self)@.wf(),
            final(self)@.next_id == old(self)@.next_id,
            final(self)@.entries.len() == old(self)@.entries.len(),
            match r {
                None => final(self)@ == old(self)@ && forall|i: int|
                    0 <= i < old(self)@.entries.len() ==> !(#[trigger] old(self)@.entries[i]).pids.contains(
                        pid,
                    ),
                Some(id) => exists|i: int, k: int|
                    {
                        &&& 0 <= i < old(self)@.entries.len()
                        &&& 0 <= k < old(self)@.entries[i].pids.len()
                        &&& old(self)@.entries[i].pids[k] == pid
                        &&& old(self)@.entries[i].id == id
                        &&& final(self)@.entries == old(self)@.entries.update(
                            i,
                            JobView {
                                statuses: old(self)@.entries[i].statuses.update(k, Some(outcome)),
                                state: state_of(
                                    old(self)@.entries[i].statuses.update(k, Some(outcome)),
                                ),
                                ..old(self)@.entries[i]
                            },
                        )
                    },
            },
    {
        let mut i: usize = 0;
        while i < self.entries.len()
            invariant
                i <= self.entries.len(),
                self@ == old(self)@,
                self@.wf(),
                forall|j: int| 0 <= j < i ==> !(#[trigger] self@.entries[j]).pids.contains(pid),
            decreases self.entries.len() - i,
        {
            assert(self@.entries[i as int] == self.entries@[i as int]@);
            let found = position_of(&self.entries[i].pids, pid);
            if let Some(at) = found {
                let ghost before = self@.entries;
                let mut entry = placeholder();
                std::mem::swap(&mut entry, &mut self.entries[i]);
                assert(entry@ == before[i as int]);
                entry.statuses[at] = Some(outcome);
                entry.state = job_state(&entry.statuses);
                let id = entry.id;
                let ghost updated = entry@;
                self.entries[i] = entry;
                proof {
                    assert(self@.entries =~= before.update(i as int, updated));
                    assert(before[i as int].pids[at as int] == pid);
                }
                return Some(id);
            }
            i += 1;
        }
        None
    }

    /// Takes the jobs that are done out of the table.
    pub fn remove_done(&mut self)
        requires
            old(self)@.wf(),
        ensures
            final(self)@.next_id == old(self)@.next_id,
            final(self)@.entries == old(self)@.entries.filter(|e: JobView| e.state != JobState::Done),
    {
        let ghost before = self@.entries;
        let ghost keep = |e: JobView| e.state != JobState::Done;
        let mut kept: Vec<JobEntry> = Vec::new();
        let mut i: usize = 0;
        assert(before.take(0).filter(keep) =~= Seq::<JobView>::empty()) by {
            reveal(Seq::filter);
        }
        assert(kept@.map_values(|e: JobEntry| e@) =~= Seq::<JobView>::empty());
        while i < self.entries.len()
            invariant
                i <= self.entries.len(),
                self.entries@.len() == before.len(),
                self.next_id == old(self).next_id,
                forall|j: int| i <= j < before.len() ==> (#[trigger] self.entries@[j])@ == before[j],
                forall|x: JobView| #[trigger] keep(x) == (x.state != JobState::Done),
                kept@.map_values(|e: JobEntry| e@) == before.take(i as int).filter(keep),
            decreases self.entries.len() - i,
        {
            let ghost done = kept@.map_values(|e: JobEntry| e@);
            let mut e = placeholder();
            std::mem::swap(&mut e, &mut self.entries[i]);
            proof {
                assert(e@ == before[i as int]);
                assert(before.take(i + 1) =~= before.take(i as int).push(e@));
                lemma_filter_push(before.take(i as int), e@, keep);
            }
            match e.state {
                JobState::Done => {},
                _ => {
                    kept.push(e);
                    assert(kept@.map_values(|e: JobEntry| e@) =~= done.push(e@));
                },
            }
            i += 1;
        }
        assert(before.take(i as int) =~= before);
        self.entries = kept;
    }
}

/// Filtering a sequence with one more element at its end.
proof fn lemma_filter_push(s: Seq<JobView>, e: JobView, keep: spec_fn(JobView) -> bool)
    ensures
        s.push(e).filter(keep) == if keep(e) {
            s.filter(keep).push(e)
        } else {
            s.filter(keep)
        },
{
    reveal(Seq::filter);
    assert(s.push(e).drop_last() =~= s);
}

} // verus!
