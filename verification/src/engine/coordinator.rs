//! Coordinating agents: their kinds, task assignments and what is done
//! when a task fails.

use vstd::prelude::*;
use crate::runtime::{new_uuid, now_millis};
use crate::text::str_eq;

verus! {

/// What an agent is good at.
#[derive(Debug, Clone, Copy, PartialEq, Eq, Structural)]
pub enum AgentType {
    Code,
    Data,
    Ops,
    Office,
    Industrial,
    Compliance,
    General,
}

/// Where an assignment stands.
#[derive(Debug, Clone, Copy, PartialEq, Eq, Structural)]
pub enum TaskAssignmentStatus {
    Assigned,
    InProgress,
    Completed,
    Failed,
    Reassigned,
}

/// A task given to an agent. Times are milliseconds since the epoch.
#[derive(Debug, Clone)]
pub struct TaskAssignment {
    pub assignment_id: String,
    pub task_id: String,
    pub agent_id: String,
    pub status: TaskAssignmentStatus,
    pub assigned_at: i64,
    pub started_at: Option<i64>,
    pub completed_at: Option<i64>,
    pub retry_count: u32,
    pub max_retries: u32,
}

impl TaskAssignment {
    /// A fresh assignment of the task to the agent, with no retries behind it.
    pub fn new(task_id: String, agent_id: String, max_retries: u32) -> (a: TaskAssignment)
        ensures
            a.task_id == task_id,
            a.agent_id == agent_id,
            a.status == TaskAssignmentStatus::Assigned,
            a.started_at is None,
            a.completed_at is None,
            a.retry_count == 0,
            a.max_retries == max_retries,
            a.assignment_id@.len() == 36,
    {
        TaskAssignment {
            assignment_id: new_uuid(),
            task_id,
            agent_id,
            status: TaskAssignmentStatus::Assigned,
            assigned_at: now_millis(),
            started_at: None,
            completed_at: None,
            retry_count: 0,
            max_retries,
        }
    }

    /// The agent has started: in progress, with the start time stamped.
    pub fn mark_in_progress(&mut self)
        ensures
            final(self).status == TaskAssignmentStatus::InProgress,
            final(self).started_at is Some,
            *final(self) == (TaskAssignment { status: final(self).status, started_at: final(self).started_at, ..*old(self) }),
    {
        self.status = TaskAssignmentStatus::InProgress;
        self.started_at = Some(now_millis());
    }

    /// The agent has finished: completed, with the end time stamped.
    pub fn mark_completed(&mut self)
        ensures
            final(self).status == TaskAssignmentStatus::Completed,
            final(self).completed_at is Some,
            *final(self) == (TaskAssignment { status: final(self).status, completed_at: final(self).completed_at, ..*old(self) }),
    {
        self.status = TaskAssignmentStatus::Completed;
        self.completed_at = Some(now_millis());
    }

    /// The agent has failed: failed, with one more retry counted.
    pub fn mark_failed(&mut self)
        requires
            old(self).retry_count < u32::MAX,
        ensures
            *final(self) == (TaskAssignment {
                status: TaskAssignmentStatus::Failed,
                retry_count: (old(self).retry_count + 1) as u32,
                ..*old(self)
            }),
    {
        self.status = TaskAssignmentStatus::Failed;
        self.retry_count = self.retry_count + 1;
    }

    /// A failed assignment with retries left may be tried again.
    pub fn can_retry(&self) -> (r: bool)
        ensures
            r == (self.status == TaskAssignmentStatus::Failed && self.retry_count < self.max_retries),
    {
        self.status == TaskAssignmentStatus::Failed && self.retry_count < self.max_retries
    }

    /// The assignment is still open: assigned or in progress.
    pub fn is_active(&self) -> (r: bool)
        ensures
            r == (self.status == TaskAssignmentStatus::Assigned || self.status == TaskAssignmentStatus::InProgress),
    {
        self.status == TaskAssignmentStatus::Assigned || self.status == TaskAssignmentStatus::InProgress
    }
}

/// A failing assignment may be tried again after this failure exactly when
/// fewer retries than allowed have then been counted.
pub proof fn law_retry_after_failure(a: TaskAssignment)
    requires
        a.retry_count < u32::MAX,
    ensures
        ({
            let f = TaskAssignment { status: TaskAssignmentStatus::Failed, retry_count: (a.retry_count + 1) as u32, ..a };
            (f.status == TaskAssignmentStatus::Failed && f.retry_count < f.max_retries) <==> a.retry_count + 1 < a.max_retries
        }),
{
}

/// An assignment of the task that is in progress.
pub open spec fn running_for(a: TaskAssignment, task_id: Seq<char>) -> bool {
    a.task_id@ == task_id && a.status == TaskAssignmentStatus::InProgress
}

/// The position of the first assignment of the task that is in progress,
/// if there is one.
pub open spec fn first_running(s: Seq<TaskAssignment>, task_id: Seq<char>) -> Option<int> {
    if exists|i: int| 0 <= i < s.len() && #[trigger] running_for(s[i], task_id) {
        Some(choose|i: int| 0 <= i < s.len() && #[trigger] running_for(s[i], task_id)
            && forall|j: int| 0 <= j < i ==> !running_for(s[j], task_id))
    } else {
        None
    }
}

/// The assignment after a failure: failed, with one more retry counted.
pub open spec fn failed(a: TaskAssignment) -> TaskAssignment {
    TaskAssignment { status: TaskAssignmentStatus::Failed, retry_count: (a.retry_count + 1) as u32, ..a }
}

proof fn lemma_first_running(s: Seq<TaskAssignment>, task_id: Seq<char>, i: int)
    requires
        0 <= i < s.len(),
        running_for(s[i], task_id),
        forall|j: int| 0 <= j < i ==> !running_for(s[j], task_id),
    ensures
        first_running(s, task_id) == Some(i),
{
    let k = choose|k: int| 0 <= k < s.len() && #[trigger] running_for(s[k], task_id)
        && forall|j: int| 0 <= j < k ==> !running_for(s[j], task_id);
    assert(0 <= k < s.len() && running_for(s[k], task_id) && forall|j: int| 0 <= j < k ==> !running_for(s[j], task_id));
    if k < i {
        assert(!running_for(s[k], task_id));
    }
    if i < k {
        assert(!running_for(s[i], task_id));
    }
}

/// Records the failure of a task among the assignments: the first
/// assignment of the task that is in progress is marked failed, and the
/// answer is whether it may be tried again; with no such assignment
/// nothing changes and the answer is no.
pub fn fail_assignment(assignments: &mut Vec<TaskAssignment>, task_id: &str) -> (needs_retry: bool)
    requires
        first_running(old(assignments)@, task_id@) matches Some(i) ==> old(assignments)@[i].retry_count < u32::MAX,
    ensures
        match first_running(old(assignments)@, task_id@) {
            Some(i) => {
                &&& final(assignments)@ == old(assignments)@.update(i, failed(old(assignments)@[i]))
                &&& needs_retry == (failed(old(assignments)@[i]).retry_count < old(assignments)@[i].max_retries)
            },
            None => final(assignments)@ == old(assignments)@ && !needs_retry,
        },
{
    let mut i: usize = 0;
    while i < assignments.len()
        invariant
            i <= assignments@.len(),
            assignments@ == old(assignments)@,
            forall|j: int| 0 <= j < i ==> !running_for(assignments@[j], task_id@),
            first_running(old(assignments)@, task_id@) matches Some(k) ==> old(assignments)@[k].retry_count < u32::MAX,
        decreases assignments@.len() - i,
    {
        if str_eq(assignments[i].task_id.as_str(), task_id) && assignments[i].status == TaskAssignmentStatus::InProgress {
            proof {
                lemma_first_running(assignments@, task_id@, i as int);
            }
            let mut a = assignments.remove(i);
            a.mark_failed();
            let retry = a.can_retry();
            assignments.insert(i, a);
            proof {
                assert(assignments@ =~= old(assignments)@.update(i as int, failed(old(assignments)@[i as int])));
            }
            return retry;
        }
        i = i + 1;
    }
    proof {
        if first_running(assignments@, task_id@) is Some {
            let k = choose|k: int| 0 <= k < assignments@.len() && #[trigger] running_for(assignments@[k], task_id@);
            assert(!running_for(assignments@[k], task_id@));
        }
    }
    false
}

/// What is done about a failed task.
#[derive(Debug, Clone, Copy, PartialEq, Eq, Structural)]
pub enum ExceptionAction {
    Retry,
    Reassign,
    Skip,
    Fail,
    HumanIntervention,
}

/// The decision taken about a failed task, and why.
#[derive(Debug, Clone)]
pub struct ExceptionDecision {
    pub task_id: String,
    pub exception_type: String,
    pub decision: ExceptionAction,
    pub reason: String,
    pub decided_at: i64,
}

/// The decision about a failed task: retry it when its assignment may be
/// tried again, otherwise fail it (retries exhausted).
pub fn failure_decision(task_id: &str, needs_retry: bool) -> (d: ExceptionDecision)
    ensures
        d.task_id@ == task_id@,
        d.exception_type@ == "TaskFailure"@,
        needs_retry ==> d.decision == ExceptionAction::Retry && d.reason@ == "Task failed, retrying"@,
        !needs_retry ==> d.decision == ExceptionAction::Fail && d.reason@ == "Max retries exceeded"@,
{
    if needs_retry {
        ExceptionDecision {
            task_id: String::from_str(task_id),
            exception_type: String::from_str("TaskFailure"),
            decision: ExceptionAction::Retry,
            reason: String::from_str("Task failed, retrying"),
            decided_at: now_millis(),
        }
    } else {
        ExceptionDecision {
            task_id: String::from_str(task_id),
            exception_type: String::from_str("TaskFailure"),
            decision: ExceptionAction::Fail,
            reason: String::from_str("Max retries exceeded"),
            decided_at: now_millis(),
        }
    }
}

} // verus!
