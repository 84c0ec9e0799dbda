use vstd::prelude::*;
use crate::record::{Task, TaskView, task_lt, lemma_task_order, status_name};

verus! {

broadcast use vstd::seq_lib::group_to_multiset_ensures;

/// Every task precedes, or equals, each task before it: greatest first.
pub open spec fn sorted_desc(s: Seq<TaskView>) -> bool {
    forall|i: int, j: int| 0 <= i < j < s.len() ==> !task_lt(#[trigger] s[i], #[trigger] s[j])
}

/// Where a task goes in a greatest-first sequence: after every element
/// that it does not exceed.
pub open spec fn insert_pos(s: Seq<TaskView>, x: TaskView) -> nat
    decreases s.len(),
{
    if s.len() == 0 {
        0
    } else if task_lt(s[0], x) {
        0
    } else {
        1 + insert_pos(s.drop_first(), x)
    }
}

/// The store's contents after pushing `x`.
pub open spec fn pushed(s: Seq<TaskView>, x: TaskView) -> Seq<TaskView> {
    s.insert(insert_pos(s, x) as int, x)
}

/// The store's contents after pushing each task of `batch` in turn.
pub open spec fn pushed_all(s: Seq<TaskView>, batch: Seq<TaskView>) -> Seq<TaskView>
    decreases batch.len(),
{
    if batch.len() == 0 {
        s
    } else {
        pushed(pushed_all(s, batch.drop_last()), batch.last())
    }
}

pub proof fn lemma_insert_pos(s: Seq<TaskView>, x: TaskView)
    ensures
        insert_pos(s, x) <= s.len(),
        forall|k: int| 0 <= k < insert_pos(s, x) ==> !task_lt(#[trigger] s[k], x),
        insert_pos(s, x) < s.len() ==> task_lt(s[insert_pos(s, x) as int], x),
    decreases s.len(),
{
    if s.len() > 0 && !task_lt(s[0], x) {
        lemma_insert_pos(s.drop_first(), x);
        assert forall|k: int| 0 <= k < insert_pos(s, x) implies !task_lt(#[trigger] s[k], x) by {
            if k > 0 {
                assert(s[k] == s.drop_first()[k - 1]);
            }
        }
    }
}

proof fn lemma_insert_pos_end(s: Seq<TaskView>, x: TaskView)
    requires
        forall|k: int| 0 <= k < s.len() ==> !task_lt(#[trigger] s[k], x),
    ensures
        insert_pos(s, x) == s.len(),
    decreases s.len(),
{
    if s.len() > 0 {
        assert(!task_lt(s[0], x));
        assert forall|k: int| 0 <= k < s.drop_first().len() implies !task_lt(
            #[trigger] s.drop_first()[k],
            x,
        ) by {
            assert(s.drop_first()[k] == s[k + 1]);
        }
        lemma_insert_pos_end(s.drop_first(), x);
    }
}

/// Pushing keeps a greatest-first sequence greatest-first, adds exactly the
/// pushed task and grows the length by one.
pub proof fn lemma_pushed(s: Seq<TaskView>, x: TaskView)
    requires
        sorted_desc(s),
    ensures
        sorted_desc(pushed(s, x)),
        pushed(s, x).len() == s.len() + 1,
        pushed(s, x).to_multiset() == s.to_multiset().insert(x),
{
    lemma_insert_pos(s, x);
    let p = insert_pos(s, x) as int;
    let r = pushed(s, x);
    assert forall|i: int, j: int| 0 <= i < j < r.len() implies !task_lt(
        #[trigger] r[i],
        #[trigger] r[j],
    ) by {
        if j < p {
            assert(r[i] == s[i] && r[j] == s[j]);
        } else if j == p {
            assert(r[i] == s[i]);
        } else if i == p {
            // s[p] < x and s[j - 1] does not exceed s[p]
            lemma_task_order(s[j - 1], s[p], x);
            lemma_task_order(s[p], s[j - 1], x);
            lemma_task_order(x, s[j - 1], x);
            if j - 1 > p {
                assert(!task_lt(s[p], s[j - 1]));
            }
        } else if i < p {
            assert(r[i] == s[i] && r[j] == s[j - 1]);
        } else {
            assert(r[i] == s[i - 1] && r[j] == s[j - 1]);
        }
    }
}

/// Pushing each task of a batch in turn keeps the store greatest-first,
/// grows it by exactly the batch's length, and loses nothing.
pub proof fn lemma_pushed_all(s: Seq<TaskView>, batch: Seq<TaskView>)
    requires
        sorted_desc(s),
    ensures
        sorted_desc(pushed_all(s, batch)),
        pushed_all(s, batch).len() == s.len() + batch.len(),
        pushed_all(s, batch).to_multiset() == s.to_multiset().add(batch.to_multiset()),
    decreases batch.len(),
{
    if batch.len() > 0 {
        let rest = batch.drop_last();
        lemma_pushed_all(s, rest);
        lemma_pushed(pushed_all(s, rest), batch.last());
        assert(batch =~= rest.push(batch.last()));
        assert(pushed_all(s, batch).to_multiset() =~= s.to_multiset().add(batch.to_multiset()));
    }
}

/// Rebuilding a store from its own greatest-first listing gives the same
/// listing back.
pub proof fn lemma_rebuild_sorted(s: Seq<TaskView>)
    requires
        sorted_desc(s),
    ensures
        pushed_all(Seq::empty(), s) == s,
    decreases s.len(),
{
    if s.len() > 0 {
        let rest = s.drop_last();
        assert(sorted_desc(rest));
        lemma_rebuild_sorted(rest);
        assert forall|k: int| 0 <= k < rest.len() implies !task_lt(#[trigger] rest[k], s.last()) by {
            assert(rest[k] == s[k]);
        }
        lemma_insert_pos_end(rest, s.last());
        assert(rest.insert(rest.len() as int, s.last()) =~= s);
    }
}

/// An optional time as shown in a listing.
pub open spec fn time_text(o: Option<Seq<char>>) -> Seq<char> {
    match o {
        Some(s) => s,
        None => "N/A"@,
    }
}

/// One task's entry in a listing.
pub open spec fn render_task(t: TaskView) -> Seq<char> {
    "["@ + t.name + "] "@ + t.command + "\n  - status: "@ + status_name(t.status) + "\n  - start: "@
        + time_text(t.start_time) + "\n  - end: "@ + time_text(t.end_time) + "\n\n"@
}

/// The entries of the given tasks, in order.
pub open spec fn render_all(s: Seq<TaskView>) -> Seq<char>
    decreases s.len(),
{
    if s.len() == 0 {
        Seq::empty()
    } else {
        render_all(s.drop_last()) + render_task(s.last())
    }
}

/// The text listing of a store's contents.
pub open spec fn listing(s: Seq<TaskView>) -> Seq<char> {
    if s.len() == 0 {
        "Queue is empty.\n"@
    } else {
        render_all(s)
    }
}

/// Saving a store and loading the result gives the same contents: the
/// snapshot of a store rebuilt from a snapshot equals that snapshot.
pub proof fn lemma_snapshot_round_trip(q: Queue)
    requires
        q.wf(),
    ensures
        pushed_all(Seq::empty(), q@) == q@,
        pushed_all(Seq::empty(), pushed_all(Seq::empty(), q@)) == pushed_all(Seq::empty(), q@),
{
    lemma_rebuild_sorted(q@);
}

/// Enqueueing a batch of tasks grows the store by exactly the batch's
/// length, keeps every earlier and every new task, and the result survives
/// a save and load unchanged.
pub proof fn lemma_enqueue_growth(q: Queue, batch: Seq<TaskView>)
    requires
        q.wf(),
    ensures
        pushed_all(q@, batch).len() == q@.len() + batch.len(),
        pushed_all(q@, batch).to_multiset() == q@.to_multiset().add(batch.to_multiset()),
        pushed_all(Seq::empty(), pushed_all(q@, batch)) == pushed_all(q@, batch),
{
    lemma_pushed_all(q@, batch);
    lemma_rebuild_sorted(pushed_all(q@, batch));
}

/// Appends one task's entry to `output`.
fn render_into(output: &mut String, t: &Task)
    ensures
        final(output)@ == old(output)@ + render_task(t@),
{
    let ghost pre = output@;
    let start: &str = match &t.start_time {
        Some(s) => s.as_str(),
        None => "N/A",
    };
    let end: &str = match &t.end_time {
        Some(s) => s.as_str(),
        None => "N/A",
    };
    assert(start@ == time_text(t@.start_time));
    assert(end@ == time_text(t@.end_time));
    let mut entry = String::from_str("[");
    entry.append(t.name.as_str());
    entry.append("] ");
    entry.append(t.command.as_str());
    entry.append("\n  - status: ");
    entry.append(t.status.as_str());
    entry.append("\n  - start: ");
    entry.append(start);
    entry.append("\n  - end: ");
    entry.append(end);
    entry.append("\n\n");
    assert(entry@ == render_task(t@));
    output.append(entry.as_str());
}

/// The tasks that enqueueing each (name, command) pair creates, in order.
pub open spec fn submissions(pairs: Seq<(Seq<char>, Seq<char>)>) -> Seq<TaskView> {
    pairs.map_values(|p: (Seq<char>, Seq<char>)| Task::submitted(p.0, p.1))
}

/// Enqueueing each (name, command) pair in turn, as successive `add_task`
/// calls do, grows the store by exactly the number of pairs; afterwards the
/// store holds every earlier task and a queued task for each pair, and a
/// save and load gives it back unchanged.
pub proof fn lemma_enqueue_each(q: Queue, pairs: Seq<(Seq<char>, Seq<char>)>)
    requires
        q.wf(),
    ensures
        pushed_all(q@, submissions(pairs)).len() == q@.len() + pairs.len(),
        forall|k: int| 0 <= k < q@.len() ==> pushed_all(q@, submissions(pairs)).contains(#[trigger] q@[k]),
        forall|i: int|
            0 <= i < pairs.len() ==> pushed_all(q@, submissions(pairs)).contains(
                Task::submitted(#[trigger] pairs[i].0, pairs[i].1),
            ),
        pushed_all(Seq::empty(), pushed_all(q@, submissions(pairs))) == pushed_all(q@, submissions(pairs)),
{
    let batch = submissions(pairs);
    let r = pushed_all(q@, batch);
    lemma_enqueue_growth(q, batch);
    assert forall|k: int| 0 <= k < q@.len() implies r.contains(#[trigger] q@[k]) by {
        assert(q@.to_multiset().count(q@[k]) > 0);
        assert(r.to_multiset().count(q@[k]) > 0);
    }
    assert forall|i: int| 0 <= i < pairs.len() implies r.contains(
        Task::submitted(#[trigger] pairs[i].0, pairs[i].1),
    ) by {
        let x = Task::submitted(pairs[i].0, pairs[i].1);
        assert(batch[i] == x);
        assert(batch.to_multiset().count(x) > 0);
        assert(r.to_multiset().count(x) > 0);
    }
}

/// The ordered store of every task, pending and finished. Tasks are held
/// greatest first under the composite ordering key.
#[derive(Debug)]
pub struct Queue {
    tasks: Vec<Task>,
}

impl View for Queue {
    type V = Seq<TaskView>;

    closed spec fn view(&self) -> Seq<TaskView> {
        self.tasks@.map_values(|t: Task| t@)
    }
}

impl Queue {
    /// The store's contents are greatest first.
    pub open spec fn wf(&self) -> bool {
        sorted_desc(self@)
    }

    /// An empty store.
    pub fn new() -> (r: Queue)
        ensures
            r@ == Seq::<TaskView>::empty(),
            r.wf(),
    {
        let r = Queue { tasks: Vec::new() };
        assert(r@ =~= Seq::<TaskView>::empty());
        r
    }

    /// Number of tasks in the store.
    pub fn len(&self) -> (r: usize)
        ensures
            r == self@.len(),
    {
        self.tasks.len()
    }

    /// Inserts a task, keeping the store ordered. Among equal tasks the new
    /// one goes last.
    pub fn push(&mut self, task: Task)
        requires
            old(self).wf(),
        ensures
            final(self)@ == pushed(old(self)@, task@),
            final(self).wf(),
    {
        let ghost s = self@;
        proof {
            lemma_insert_pos(s, task@);
            lemma_pushed(s, task@);
        }
        let n = self.tasks.len();
        let mut i: usize = 0;
        while i < n && !self.tasks[i].is_less(&task)
            invariant
                n == self.tasks.len(),
                s == self@,
                i <= n,
                forall|k: int| 0 <= k < i ==> !task_lt(#[trigger] s[k], task@),
                i <= insert_pos(s, task@),
                insert_pos(s, task@) <= n,
                insert_pos(s, task@) < n ==> task_lt(s[insert_pos(s, task@) as int], task@),
            decreases n - i,
        {
            proof {
                assert(s[i as int] == self.tasks[i as int]@);
            }
            i = i + 1;
        }
        proof {
            if i < n {
                assert(s[i as int] == self.tasks[i as int]@);
            }
        }
        assert(i == insert_pos(s, task@));
        let ghost t = task@;
        self.tasks.insert(i, task);
        assert(self@ =~= s.insert(i as int, t));
    }

    /// Removes and returns the greatest task, if any.
    pub fn pop_max(&mut self) -> (r: Option<Task>)
        requires
            old(self).wf(),
        ensures
            final(self).wf(),
            old(self)@.len() == 0 ==> r is None && final(self)@ == old(self)@,
            old(self)@.len() > 0 ==> r is Some && r->0@ == old(self)@[0]
                && final(self)@ == old(self)@.drop_first(),
            r is Some ==> forall|k: int|
                0 <= k < old(self)@.len() ==> !task_lt(r->0@, #[trigger] old(self)@[k]),
    {
        if self.tasks.len() == 0 {
            None
        } else {
            let ghost s = self@;
            let t = self.tasks.remove(0);
            assert(self@ =~= s.drop_first());
            proof {
                assert(t@ == s[0]);
                assert forall|k: int| 0 <= k < s.len() implies !task_lt(t@, #[trigger] s[k]) by {
                    if k == 0 {
                        lemma_task_order(t@, t@, t@);
                    }
                }
                assert(sorted_desc(self@)) by {
                    assert forall|i: int, j: int| 0 <= i < j < self@.len() implies !task_lt(
                        #[trigger] self@[i],
                        #[trigger] self@[j],
                    ) by {
                        assert(self@[i] == s[i + 1] && self@[j] == s[j + 1]);
                    }
                }
            }
            Some(t)
        }
    }

    /// Appends a new queued task with the given name and command.
    pub fn add_task(&mut self, app_name: &str, command: &str)
        requires
            old(self).wf(),
        ensures
            final(self)@ == pushed(old(self)@, Task::submitted(app_name@, command@)),
            final(self).wf(),
    {
        self.push(Task::new(app_name, command));
    }

    /// The store's tasks, greatest first, without changing the store.
    pub fn to_sorted(&self) -> (r: Vec<Task>)
        ensures
            r@.map_values(|t: Task| t@) == self@,
    {
        let mut out: Vec<Task> = Vec::new();
        let mut i: usize = 0;
        while i < self.tasks.len()
            invariant
                i <= self.tasks.len(),
                out@.len() == i,
                forall|k: int| 0 <= k < i ==> (#[trigger] out@[k])@ == self@[k],
            decreases self.tasks.len() - i,
        {
            let t = self.tasks[i].duplicate();
            assert(t@ == self@[i as int]);
            out.push(t);
            i = i + 1;
        }
        assert(out@.map_values(|t: Task| t@) =~= self@);
        out
    }

    /// A store holding the given tasks, each pushed in turn.
    pub fn from_records(records: &Vec<Task>) -> (r: Queue)
        ensures
            r@ == pushed_all(Seq::empty(), records@.map_values(|t: Task| t@)),
            r.wf(),
    {
        let ghost all = records@.map_values(|t: Task| t@);
        let mut q = Queue::new();
        let mut i: usize = 0;
        assert(all.subrange(0, 0) =~= Seq::<TaskView>::empty());
        while i < records.len()
            invariant
                i <= records.len(),
                all == records@.map_values(|t: Task| t@),
                q.wf(),
                q@ == pushed_all(Seq::empty(), all.subrange(0, i as int)),
            decreases records.len() - i,
        {
            q.push(records[i].duplicate());
            proof {
                let sub = all.subrange(0, i + 1);
                assert(sub.drop_last() =~= all.subrange(0, i as int));
                assert(sub.last() == records@[i as int]@);
            }
            i = i + 1;
        }
        assert(all.subrange(0, i as int) =~= all);
        q
    }

    /// The store's contents as text, greatest first: for each task its
    /// name, command, status, start and end time ("N/A" when absent).
    pub fn list_tasks(&self) -> (r: String)
        ensures
            r@ == listing(self@),
    {
        let mut output = String::new();
        let mut i: usize = 0;
        while i < self.tasks.len()
            invariant
                i <= self.tasks.len(),
                output@ == render_all(self@.subrange(0, i as int)),
            decreases self.tasks.len() - i,
        {
            let t = &self.tasks[i];
            render_into(&mut output, t);
            proof {
                let sub = self@.subrange(0, i + 1);
                assert(sub.drop_last() =~= self@.subrange(0, i as int));
                assert(sub.last() == t@);
            }
            i = i + 1;
        }
        assert(self@.subrange(0, i as int) =~= self@);
        if i == 0 {
            output.append("Queue is empty.\n");
            assert(output@ =~= "Queue is empty.\n"@);
        }
        output
    }
}

} // verus!
