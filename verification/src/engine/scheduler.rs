//! The queue of tasks waiting to run: the most urgent first, and among
//! tasks of one priority the one scheduled earliest. Times are
//! milliseconds since the Unix epoch.

use vstd::prelude::*;
use crate::engine::types::{Task, TaskModel};
use crate::runtime::now_millis;

verus! {

broadcast use vstd::std_specs::vec::group_vec_axioms, vstd::seq::group_seq_axioms;

/// Tasks waiting to run, each with the time it was scheduled, in the order
/// they were scheduled.
pub struct TaskScheduler {
    queue: Vec<(Task, i64)>,
}

/// The models of the waiting tasks and their times.
pub open spec fn entries(q: Seq<(Task, i64)>) -> Seq<(TaskModel, i64)> {
    q.map_values(|e: (Task, i64)| (e.0@, e.1))
}

impl View for TaskScheduler {
    type V = Seq<(TaskModel, i64)>;

    closed spec fn view(&self) -> Seq<(TaskModel, i64)> {
        entries(self.queue@)
    }
}

/// `a` goes before `b`: a higher priority, or the same priority and an
/// earlier time.
pub open spec fn goes_before(a: (TaskModel, i64), b: (TaskModel, i64)) -> bool {
    a.0.priority > b.0.priority || (a.0.priority == b.0.priority && a.1 < b.1)
}

/// The entry at `i` is the next to run: nothing goes before it, and it
/// goes before every entry scheduled earlier (so among entries alike the
/// first scheduled runs first).
pub open spec fn next_at(q: Seq<(TaskModel, i64)>, i: int) -> bool {
    &&& 0 <= i < q.len()
    &&& forall|j: int| 0 <= j < q.len() ==> !goes_before(#[trigger] q[j], q[i])
    &&& forall|j: int| 0 <= j < i ==> goes_before(q[i], #[trigger] q[j])
}

/// At most one entry is the next to run, so taking a task out of the
/// queue has one outcome.
pub proof fn law_next_is_unique(q: Seq<(TaskModel, i64)>, i: int, j: int)
    requires
        next_at(q, i),
        next_at(q, j),
    ensures
        i == j,
{
    if i < j {
        assert(goes_before(q[j], q[i]));
        assert(!goes_before(q[j], q[i]));
    }
    if j < i {
        assert(goes_before(q[i], q[j]));
        assert(!goes_before(q[i], q[j]));
    }
}

impl TaskScheduler {
    /// An empty queue.
    pub fn new() -> (s: TaskScheduler)
        ensures
            s@.len() == 0,
    {
        TaskScheduler { queue: Vec::new() }
    }

    /// An empty queue.
    pub fn default() -> (s: TaskScheduler)
        ensures
            s@.len() == 0,
    {
        TaskScheduler::new()
    }

    /// Schedules the task at time `now`: it joins the end of the queue.
    pub fn schedule_at(&mut self, task: Task, now: i64)
        ensures
            final(self)@ == old(self)@.push((task@, now)),
    {
        let ghost t = task@;
        self.queue.push((task, now));
        assert(entries(self.queue@) =~= old(self)@.push((t, now)));
    }

    /// Schedules the task now, by the system clock.
    pub fn schedule(&mut self, task: Task)
        ensures
            exists|now: i64| final(self)@ == old(self)@.push((task@, now)),
    {
        let now = now_millis();
        self.schedule_at(task, now);
    }

    /// Takes the next task to run out of the queue: the one with the
    /// highest priority, and among those the one scheduled earliest; `None`
    /// when the queue is empty.
    pub fn pop_task(&mut self) -> (r: Option<Task>)
        ensures
            old(self)@.len() == 0 ==> r is None && final(self)@ == old(self)@,
            old(self)@.len() > 0 ==> exists|i: int|
                #[trigger] next_at(old(self)@, i) && final(self)@ == old(self)@.remove(i) && (r matches Some(t)
                    && t@ == old(self)@[i].0),
    {
        let n = self.queue.len();
        if n == 0 {
            return None;
        }
        let ghost q = self@;
        let mut best: usize = 0;
        let mut i: usize = 1;
        while i < n
            invariant
                n == self.queue@.len(),
                q == entries(self.queue@),
                1 <= i <= n,
                best < i,
                forall|j: int| 0 <= j < i ==> !goes_before(#[trigger] q[j], q[best as int]),
                forall|j: int| 0 <= j < best ==> goes_before(q[best as int], #[trigger] q[j]),
            decreases n - i,
        {
            let pb = self.queue[best].0.priority;
            let tb = self.queue[best].1;
            let pi = self.queue[i].0.priority;
            let ti = self.queue[i].1;
            assert(q[i as int] == (self.queue@[i as int].0@, self.queue@[i as int].1));
            assert(q[best as int] == (self.queue@[best as int].0@, self.queue@[best as int].1));
            if pi > pb || (pi == pb && ti < tb) {
                proof {
                    assert forall|j: int| 0 <= j < i implies goes_before(q[i as int], #[trigger] q[j]) by {
                        assert(!goes_before(q[j], q[best as int]));
                    }
                }
                best = i;
            }
            i = i + 1;
        }
        let (task, _) = self.queue.remove(best);
        assert(entries(self.queue@) =~= q.remove(best as int));
        assert(next_at(q, best as int));
        Some(task)
    }

    /// How many tasks wait.
    pub fn len(&self) -> (n: usize)
        ensures
            n == self@.len(),
    {
        self.queue.len()
    }

    /// Whether no task waits.
    pub fn is_empty(&self) -> (r: bool)
        ensures
            r == (self@.len() == 0),
    {
        self.queue.len() == 0
    }
}

} // verus!
