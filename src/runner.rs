use vstd::prelude::*;
use crate::record::{Status, Task, TaskView, task_lt};
use crate::store::{Queue, sorted_desc, pushed, lemma_pushed, time_text};

verus! {

broadcast use vstd::seq_lib::group_to_multiset_ensures;

/// Attempts made for one task before it is given up.
pub const MAX_RETRIES: u32 = 3;

/// Seconds to wait after a failed attempt.
pub const RETRY_DELAY_SECS: u64 = 5;

/// Seconds between two drain passes.
pub const TICK_INTERVAL_SECS: u64 = 10;

/// Relies on chrono's `From<SystemTime> for DateTime<Utc>` and
/// `DateTime::to_rfc3339`: the current time as RFC 3339 text, whose date
/// and time part alone ("YYYY-MM-DDTHH:MM:SS") is nineteen characters and
/// is followed by an offset.
#[verifier::external_body]
fn timestamp_now() -> (r: String)
    ensures
        r@.len() >= 20,
{
    chrono::DateTime::<chrono::Utc>::from(std::time::SystemTime::now()).to_rfc3339()
}

/// What came of one attempt to run a task's command.
#[derive(Debug)]
pub enum Outcome {
    /// The command started and exited with status zero.
    Succeeded,
    /// The command did not start, or exited with another status; `error`
    /// holds the captured error text.
    Failed { error: String },
}

/// A time was recorded, as RFC 3339 text.
pub open spec fn stamped(t: Option<Seq<char>>) -> bool {
    t is Some && t->0.len() >= 20
}

/// `r` increased by `n`, saturating at the largest `u32`.
pub open spec fn bumped(r: u32, n: nat) -> u32 {
    if r as nat + n > u32::MAX as nat {
        u32::MAX
    } else {
        (r as nat + n) as u32
    }
}

pub open spec fn started(t: TaskView, ts: Seq<char>) -> TaskView {
    TaskView { status: Status::Running, start_time: Some(ts), ..t }
}

pub open spec fn failed_attempt(t: TaskView, error: Seq<char>) -> TaskView {
    TaskView { retries: bumped(t.retries, 1), error_message: Some(error), ..t }
}

pub open spec fn ended(t: TaskView, status: Status, ts: Seq<char>) -> TaskView {
    TaskView { status, end_time: Some(ts), ..t }
}

/// `s` is what a drain pass may leave of the task `o` it visited: a task
/// that was not queued is untouched; a queued one was started and ended,
/// either failed after every attempt failed, or completed after fewer
/// failures.
pub open spec fn settled_from(o: TaskView, s: TaskView) -> bool {
    if o.status != Status::Queued {
        s == o
    } else {
        &&& s.name == o.name
        &&& s.command == o.command
        &&& stamped(s.start_time)
        &&& stamped(s.end_time)
        &&& (s.status == Status::Failed && s.retries == bumped(o.retries, MAX_RETRIES as nat))
            || (s.status == Status::Completed && o.retries <= s.retries <= bumped(
            o.retries,
            (MAX_RETRIES - 1) as nat,
        ))
    }
}

/// Model of a drain pass.
pub ghost struct PassView {
    /// The store the pass started from, greatest first.
    pub origin: Seq<TaskView>,
    /// What became of each visited and finished task, in visiting order.
    pub settled: Seq<TaskView>,
    /// Tasks not visited yet.
    pub pending: Seq<TaskView>,
    /// The replacement store.
    pub finished: Seq<TaskView>,
    /// The task being executed.
    pub current: Option<TaskView>,
    /// Attempts started for the current task.
    pub attempts: u32,
    /// An attempt was handed out and its outcome is not recorded yet.
    pub awaiting: bool,
}

/// One drain pass over a store: every task is visited exactly once,
/// greatest first; queued ones are executed with bounded retry. The pass
/// decides; the caller runs the commands and waits the delays.
pub struct DrainPass {
    pending: Queue,
    finished: Queue,
    current: Option<Task>,
    attempts: u32,
    awaiting: bool,
    origin: Ghost<Seq<TaskView>>,
    settled: Ghost<Seq<TaskView>>,
}

pub open spec fn opt_task_view(o: Option<Task>) -> Option<TaskView> {
    match o {
        Some(t) => Some(t@),
        None => None,
    }
}

impl View for DrainPass {
    type V = PassView;

    closed spec fn view(&self) -> PassView {
        PassView {
            origin: self.origin@,
            settled: self.settled@,
            pending: self.pending@,
            finished: self.finished@,
            current: opt_task_view(self.current),
            attempts: self.attempts,
            awaiting: self.awaiting,
        }
    }
}

impl DrainPass {
    /// Number of tasks taken out of the store so far.
    pub open spec fn visited(&self) -> int {
        self@.origin.len() - self@.pending.len()
    }

    pub open spec fn wf(&self) -> bool {
        let v = self@;
        &&& sorted_desc(v.origin)
        &&& sorted_desc(v.pending)
        &&& sorted_desc(v.finished)
        &&& v.pending.len() <= v.origin.len()
        &&& v.pending == v.origin.subrange(self.visited(), v.origin.len() as int)
        &&& v.finished.to_multiset() == v.settled.to_multiset()
        &&& v.settled.len() + (if v.current is Some { 1int } else { 0 }) == self.visited()
        &&& forall|k: int|
            0 <= k < v.settled.len() ==> settled_from(v.origin[k], #[trigger] v.settled[k])
        &&& v.current is None ==> !v.awaiting
        &&& v.current is Some ==> {
            let o = v.origin[self.visited() - 1];
            let c = v.current->0;
            &&& o.status == Status::Queued
            &&& c.name == o.name
            &&& c.command == o.command
            &&& c.status == Status::Running
            &&& stamped(c.start_time)
            &&& c.end_time == o.end_time
            &&& 1 <= v.attempts <= MAX_RETRIES
            &&& c.retries == bumped(
                o.retries,
                (v.attempts - (if v.awaiting { 1int } else { 0 })) as nat,
            )
        }
    }

    /// The pass is over: nothing is left to visit or to execute.
    pub open spec fn done(&self) -> bool {
        self@.current is None && self@.pending.len() == 0
    }

    /// Starts a pass over the given store.
    pub fn new(queue: Queue) -> (r: DrainPass)
        requires
            queue.wf(),
        ensures
            r.wf(),
            r@.origin == queue@,
            r@.pending == queue@,
            r@.settled.len() == 0,
            r@.finished.len() == 0,
            r@.current is None,
    {
        let ghost s = queue@;
        let r = DrainPass {
            pending: queue,
            finished: Queue::new(),
            current: None,
            attempts: 0,
            awaiting: false,
            origin: Ghost(s),
            settled: Ghost(Seq::empty()),
        };
        assert(s.subrange(0, s.len() as int) =~= s);
        assert(r@.finished.to_multiset() =~= r@.settled.to_multiset());
        r
    }

    /// Whether the pass is over.
    pub fn is_done(&self) -> (r: bool)
        ensures
            r == self.done(),
    {
        self.current.is_none() && self.pending.len() == 0
    }

    /// Whether an attempt was handed out whose outcome is still to be recorded.
    pub fn awaiting_outcome(&self) -> (r: bool)
        ensures
            r == self@.awaiting,
    {
        self.awaiting
    }

    /// The name of the task being executed and the number of attempts
    /// started for it, if a task is being executed.
    pub fn current_attempt(&self) -> (r: Option<(String, u32)>)
        ensures
            self@.current is None ==> r is None,
            self@.current is Some ==> r is Some && (r->0).0@ == self@.current->0.name
                && (r->0).1 == self@.attempts,
    {
        match &self.current {
            Some(c) => Some((c.name.clone(), self.attempts)),
            None => None,
        }
    }

    /// Takes the pass one step forward. A retry of the current task hands
    /// out its command again; a current task out of attempts ends failed;
    /// otherwise the greatest unvisited task is taken: a queued one is
    /// started and its command handed out, any other goes unchanged into
    /// the replacement store. Returns the command to run, if any.
    pub fn step(&mut self) -> (r: Option<String>)
        requires
            old(self).wf(),
            !old(self)@.awaiting,
        ensures
            final(self).wf(),
            final(self)@.origin == old(self)@.origin,
            ({
                let v = old(self)@;
                let w = final(self)@;
                if v.current is Some {
                    let c = v.current->0;
                    if v.attempts < MAX_RETRIES {
                        &&& r is Some && r->0@ == c.command
                        &&& w == PassView { attempts: (v.attempts + 1) as u32, awaiting: true, ..v }
                    } else {
                        &&& r is None
                        &&& w.current is None && !w.awaiting
                        &&& w.pending == v.pending
                        &&& exists|ts: Seq<char>|
                            ts.len() >= 20 &&
                            w.finished == pushed(v.finished, ended(c, Status::Failed, ts))
                                && w.settled == v.settled.push(ended(c, Status::Failed, ts))
                    }
                } else if v.pending.len() == 0 {
                    r is None && w == v
                } else {
                    let p = v.pending[0];
                    &&& w.pending == v.pending.drop_first()
                    &&& forall|k: int| 0 <= k < v.pending.len() ==> !task_lt(p, #[trigger] v.pending[k])
                    &&& if p.status == Status::Queued {
                        &&& r is Some && r->0@ == p.command
                        &&& w.finished == v.finished
                        &&& w.settled == v.settled
                        &&& w.attempts == 1 && w.awaiting
                        &&& exists|ts: Seq<char>| ts.len() >= 20 && w.current == Some(started(p, ts))
                    } else {
                        &&& r is None
                        &&& w.current is None && !w.awaiting
                        &&& w.finished == pushed(v.finished, p)
                        &&& w.settled == v.settled.push(p)
                    }
                }
            }),
    {
        let ghost v = self@;
        if self.current.is_some() {
            if self.attempts < MAX_RETRIES {
                self.attempts = self.attempts + 1;
                self.awaiting = true;
                let cmd = match &self.current {
                    Some(c) => c.command.clone(),
                    None => String::new(),
                };
                return Some(cmd);
            }
            let mut c = self.current.take().unwrap();
            c.status = Status::Failed;
            let ts = timestamp_now();
            let ghost tsv = ts@;
            c.end_time = Some(ts);
            let ghost cv = c@;
            assert(cv == ended(v.current->0, Status::Failed, tsv));
            proof {
                lemma_pushed(v.finished, cv);
            }
            self.finished.push(c);
            self.settled = Ghost(self.settled@.push(cv));
            assert(self@.finished.to_multiset() =~= self@.settled.to_multiset());
            assert(self@.settled[self@.settled.len() - 1] == cv);
            return None;
        }
        match self.pending.pop_max() {
            None => None,
            Some(mut t) => {
                proof {
                    assert(v.pending[0] == v.origin[self.visited() - 1]);
                    assert(self@.pending =~= self@.origin.subrange(self.visited(), self@.origin.len() as int));
                }
                if t.status == Status::Queued {
                    t.status = Status::Running;
                    let ts = timestamp_now();
                    let ghost tsv = ts@;
                    t.start_time = Some(ts);
                    let cmd = t.command.clone();
                    assert(t@ == started(v.pending[0], tsv));
                    self.current = Some(t);
                    self.attempts = 1;
                    self.awaiting = true;
                    Some(cmd)
                } else {
                    let ghost tv = t@;
                    proof {
                        lemma_pushed(v.finished, tv);
                    }
                    self.finished.push(t);
                    self.settled = Ghost(self.settled@.push(tv));
                    assert(self@.finished.to_multiset() =~= self@.settled.to_multiset());
                    assert(self@.settled[self@.settled.len() - 1] == tv);
                    None
                }
            }
        }
    }

    /// Records the outcome of the attempt handed out last. Success ends the
    /// task completed; a failure counts one more retry and keeps its error
    /// text. Returns whether the caller must wait the retry delay before the
    /// next step.
    pub fn record_outcome(&mut self, outcome: Outcome) -> (delay: bool)
        requires
            old(self).wf(),
            old(self)@.awaiting,
        ensures
            final(self).wf(),
            final(self)@.origin == old(self)@.origin,
            !final(self)@.awaiting,
            final(self)@.pending == old(self)@.pending,
            ({
                let v = old(self)@;
                let w = final(self)@;
                let c = v.current->0;
                match outcome {
                    Outcome::Succeeded => {
                        &&& !delay
                        &&& w.current is None
                        &&& exists|ts: Seq<char>|
                            ts.len() >= 20 &&
                            w.finished == pushed(v.finished, ended(c, Status::Completed, ts))
                                && w.settled == v.settled.push(ended(c, Status::Completed, ts))
                    },
                    Outcome::Failed { error } => {
                        &&& delay
                        &&& w.current == Some(failed_attempt(c, error@))
                        &&& w.attempts == v.attempts
                        &&& w.finished == v.finished
                        &&& w.settled == v.settled
                    },
                }
            }),
    {
        let ghost v = self@;
        let mut c = self.current.take().unwrap();
        self.awaiting = false;
        match outcome {
            Outcome::Succeeded => {
                c.status = Status::Completed;
                let ts = timestamp_now();
                let ghost tsv = ts@;
                c.end_time = Some(ts);
                let ghost cv = c@;
                assert(cv == ended(v.current->0, Status::Completed, tsv));
                proof {
                    lemma_pushed(v.finished, cv);
                }
                self.finished.push(c);
                self.settled = Ghost(self.settled@.push(cv));
                assert(self@.finished.to_multiset() =~= self@.settled.to_multiset());
                assert(self@.settled[self@.settled.len() - 1] == cv);
                false
            },
            Outcome::Failed { error } => {
                c.retries = if c.retries < u32::MAX {
                    c.retries + 1
                } else {
                    c.retries
                };
                c.error_message = Some(error);
                self.current = Some(c);
                true
            },
        }
    }

    /// Ends the pass and hands back the replacement store.
    pub fn finish(self) -> (r: Queue)
        requires
            self.wf(),
            self.done(),
        ensures
            r.wf(),
            r@ == self@.finished,
    {
        self.finished
    }
}

/// A pass loses no task and visits each at most once, in every state:
/// each task of the store the pass started from is either still waiting,
/// being executed (at most the maximum number of attempts), or settled
/// exactly once into the replacement store, which holds nothing else. Once
/// the pass is over every task is settled.
pub proof fn lemma_pass_conserves(p: &DrainPass)
    requires
        p.wf(),
    ensures
        p@.pending == p@.origin.subrange(p.visited(), p@.origin.len() as int),
        p@.settled.len() + (if p@.current is Some { 1int } else { 0 }) + p@.pending.len()
            == p@.origin.len(),
        p@.finished.len() == p@.settled.len(),
        p@.finished.to_multiset() == p@.settled.to_multiset(),
        forall|k: int|
            0 <= k < p@.settled.len() ==> settled_from(p@.origin[k], #[trigger] p@.settled[k]),
        p@.current is Some ==> p@.attempts <= MAX_RETRIES,
        p.done() ==> p@.finished.len() == p@.origin.len(),
{
    assert(p@.finished.len() == p@.finished.to_multiset().len());
    assert(p@.settled.len() == p@.settled.to_multiset().len());
}

/// Tasks are taken greatest first: every task already taken is at least as
/// great as every task still waiting.
pub proof fn lemma_visit_order(p: &DrainPass, i: int, j: int)
    requires
        p.wf(),
        0 <= i < p.visited() <= j < p@.origin.len(),
    ensures
        !task_lt(p@.origin[i], p@.origin[j]),
{
}

/// A freshly submitted task that a pass has settled either failed with
/// exactly the maximum number of retries, or completed with fewer.
pub proof fn lemma_retry_bound(p: &DrainPass, k: int)
    requires
        p.wf(),
        0 <= k < p@.settled.len(),
        p@.origin[k].status == Status::Queued,
        p@.origin[k].retries == 0,
    ensures
        p@.settled[k].status == Status::Failed ==> p@.settled[k].retries == MAX_RETRIES,
        p@.settled[k].status == Status::Completed ==> p@.settled[k].retries < MAX_RETRIES,
        p@.settled[k].status == Status::Failed || p@.settled[k].status == Status::Completed,
{
}

/// A freshly submitted task whose every attempt failed: once the maximum
/// number of attempts has been handed out and each outcome recorded, it
/// has exactly that many retries and has not completed; the next `step`
/// ends it failed.
pub proof fn lemma_attempts_exhausted(p: &DrainPass)
    requires
        p.wf(),
        p@.current is Some,
        !p@.awaiting,
        p@.attempts == MAX_RETRIES,
        p@.origin[p.visited() - 1].retries == 0,
    ensures
        p@.current->0.retries == MAX_RETRIES,
        p@.current->0.status == Status::Running,
{
}

/// A recorded time is shown in a listing as itself, never as "N/A".
pub proof fn lemma_stamped_time_shown(t: Option<Seq<char>>)
    requires
        stamped(t),
    ensures
        time_text(t) == t->0,
        time_text(t) != "N/A"@,
{
    reveal_strlit("N/A");
}

} // verus!
