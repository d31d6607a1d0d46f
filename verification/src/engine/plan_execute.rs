//! The plan-and-execute loop: its states, its reasoning steps, and the
//! reason-and-act engine that drives a single task. Times are milliseconds
//! since the Unix epoch.

use vstd::prelude::*;
use crate::engine::types::{Task, TaskModel, TaskStatus};
use crate::engine::planner::ExecutionPlan;
use crate::engine::reflect::{Reflector, HistoryModel};
use crate::error::AetherisError;
use crate::runtime::{new_uuid, now_millis};

verus! {

broadcast use vstd::std_specs::vec::group_vec_axioms, vstd::seq::group_seq_axioms;

/// The kind of a reasoning step.
#[derive(Debug, Clone, Copy, PartialEq, Eq, Structural)]
pub enum ReActStepType {
    Think,
    Act,
    Observe,
}

/// One step of reasoning or acting, with what was observed of it.
#[derive(Debug)]
pub struct ReActStep {
    pub step_id: String,
    pub step_type: ReActStepType,
    pub content: String,
    pub timestamp: i64,
    pub observation: Option<String>,
}

/// What a step is: its kind and its content.
pub open spec fn step_shape(s: ReActStep) -> (ReActStepType, Seq<char>) {
    (s.step_type, s.content@)
}

impl ReActStep {
    /// A step of the given kind with a fresh id, stamped now, with nothing
    /// observed.
    pub fn new(step_type: ReActStepType, content: String) -> (s: ReActStep)
        ensures
            s.step_type == step_type,
            s.content == content,
            s.observation is None,
            s.step_id@.len() == 36,
    {
        ReActStep { step_id: new_uuid(), step_type, content, timestamp: now_millis(), observation: None }
    }

    /// The step with the given observation.
    pub fn with_observation(self, observation: String) -> (s: ReActStep)
        ensures
            s == (ReActStep { observation: Some(observation), ..self }),
    {
        ReActStep { observation: Some(observation), ..self }
    }

    /// A thinking step.
    pub fn think(content: String) -> (s: ReActStep)
        ensures
            s.step_type == ReActStepType::Think,
            s.content == content,
            s.observation is None,
    {
        ReActStep::new(ReActStepType::Think, content)
    }

    /// An acting step.
    pub fn act(content: String) -> (s: ReActStep)
        ensures
            s.step_type == ReActStepType::Act,
            s.content == content,
            s.observation is None,
    {
        ReActStep::new(ReActStepType::Act, content)
    }

    /// An observing step.
    pub fn observe(content: String) -> (s: ReActStep)
        ensures
            s.step_type == ReActStepType::Observe,
            s.content == content,
            s.observation is None,
    {
        ReActStep::new(ReActStepType::Observe, content)
    }
}

/// Where a plan-and-execute run stands.
#[derive(Debug, Clone, Copy, PartialEq, Eq, Structural)]
pub enum PlanExecuteStatus {
    Planning,
    Executing,
    ReActing,
    Reflecting,
    Completed,
    Failed,
    Replaning,
}

/// The state of a plan-and-execute run of one task.
#[derive(Debug)]
pub struct PlanExecuteState {
    pub state_id: String,
    pub original_task: Task,
    pub current_plan: Option<ExecutionPlan>,
    pub current_step_index: usize,
    pub react_steps: Vec<ReActStep>,
    pub status: PlanExecuteStatus,
    pub retry_count: u32,
    pub max_retries: u32,
    pub created_at: i64,
    pub last_updated_at: i64,
}

impl PlanExecuteState {
    /// A run of the task, planning, with a fresh id, no plan, no steps and
    /// no retries, created and updated now.
    pub fn new(task: Task, max_retries: u32) -> (s: PlanExecuteState)
        ensures
            s.original_task == task,
            s.current_plan is None,
            s.current_step_index == 0,
            s.react_steps@.len() == 0,
            s.status == PlanExecuteStatus::Planning,
            s.retry_count == 0,
            s.max_retries == max_retries,
            s.created_at == s.last_updated_at,
            s.state_id@.len() == 36,
    {
        let now = now_millis();
        PlanExecuteState {
            state_id: new_uuid(),
            original_task: task,
            current_plan: None,
            current_step_index: 0,
            react_steps: Vec::new(),
            status: PlanExecuteStatus::Planning,
            retry_count: 0,
            max_retries,
            created_at: now,
            last_updated_at: now,
        }
    }

    /// The run with a plan, executing it, updated now.
    pub fn with_plan(self, plan: ExecutionPlan) -> (s: PlanExecuteState)
        ensures
            s == (PlanExecuteState {
                current_plan: Some(plan),
                status: PlanExecuteStatus::Executing,
                last_updated_at: s.last_updated_at,
                ..self
            }),
    {
        PlanExecuteState { current_plan: Some(plan), status: PlanExecuteStatus::Executing, last_updated_at: now_millis(), ..self }
    }

    /// Appends a step, updated now.
    pub fn add_react_step(&mut self, step: ReActStep)
        ensures
            final(self).react_steps@ == old(self).react_steps@.push(step),
            *final(self) == (PlanExecuteState {
                react_steps: final(self).react_steps,
                last_updated_at: final(self).last_updated_at,
                ..*old(self)
            }),
    {
        self.react_steps.push(step);
        self.last_updated_at = now_millis();
    }

    /// Marks the run completed, updated now.
    pub fn mark_completed(&mut self)
        ensures
            *final(self) == (PlanExecuteState {
                status: PlanExecuteStatus::Completed,
                last_updated_at: final(self).last_updated_at,
                ..*old(self)
            }),
    {
        self.status = PlanExecuteStatus::Completed;
        self.last_updated_at = now_millis();
    }

    /// Marks the run failed and counts a retry, updated now.
    pub fn mark_failed(&mut self)
        requires
            old(self).retry_count < u32::MAX,
        ensures
            *final(self) == (PlanExecuteState {
                status: PlanExecuteStatus::Failed,
                retry_count: (old(self).retry_count + 1) as u32,
                last_updated_at: final(self).last_updated_at,
                ..*old(self)
            }),
    {
        self.status = PlanExecuteStatus::Failed;
        self.retry_count = self.retry_count + 1;
        self.last_updated_at = now_millis();
    }

    /// Moves to the next step of the plan, updated now.
    pub fn advance_step(&mut self)
        requires
            old(self).current_step_index < usize::MAX,
        ensures
            *final(self) == (PlanExecuteState {
                current_step_index: (old(self).current_step_index + 1) as usize,
                last_updated_at: final(self).last_updated_at,
                ..*old(self)
            }),
    {
        self.current_step_index = self.current_step_index + 1;
        self.last_updated_at = now_millis();
    }
}

/// The steps of a reason-and-act run: it always starts by thinking; given
/// at least one iteration, it acts once, observes the result and
/// concludes.
pub open spec fn react_shapes(max_iterations: usize) -> Seq<(ReActStepType, Seq<char>)> {
    seq![(ReActStepType::Think, "Starting task execution..."@)] + if max_iterations > 0 {
        seq![
            (ReActStepType::Act, "Iteration 1: Executing task"@),
            (ReActStepType::Observe, "Execution completed successfully"@),
            (ReActStepType::Think, "Task completed, no further actions needed"@),
        ]
    } else {
        Seq::empty()
    }
}

/// Carries out a task by alternating reasoning and acting, within a bound
/// on iterations, with a reflector for what it learns.
#[derive(Debug)]
pub struct ReActEngine {
    max_iterations: usize,
    reflector: Reflector,
}

impl View for ReActEngine {
    type V = (usize, HistoryModel);

    closed spec fn view(&self) -> (usize, HistoryModel) {
        (self.max_iterations, self.reflector@)
    }
}

impl ReActEngine {
    /// An engine of at most ten iterations with a fresh reflector.
    pub fn new() -> (e: ReActEngine)
        ensures
            e@.0 == 10,
            e@.1.reports.len() == 0,
            e@.1.task_reports.len() == 0,
    {
        ReActEngine { max_iterations: 10, reflector: Reflector::new() }
    }

    /// An engine of at most ten iterations with a fresh reflector.
    pub fn default() -> (e: ReActEngine)
        ensures
            e@.0 == 10,
            e@.1.reports.len() == 0,
            e@.1.task_reports.len() == 0,
    {
        ReActEngine::new()
    }

    /// The engine with the given bound on iterations.
    pub fn with_max_iterations(self, max: usize) -> (e: ReActEngine)
        ensures
            e@ == (max, self@.1),
    {
        ReActEngine { max_iterations: max, ..self }
    }

    /// The engine with the given reflector.
    pub fn with_reflector(self, reflector: Reflector) -> (e: ReActEngine)
        ensures
            e@ == (self@.0, reflector@),
    {
        ReActEngine { reflector, ..self }
    }

    /// The bound on iterations.
    pub fn max_iterations(&self) -> (n: usize)
        ensures
            n == self@.0,
    {
        self.max_iterations
    }

    /// Runs the task: the steps taken, and the task, marked completed when
    /// an iteration ran and otherwise as it was given.
    pub fn run(&self, task: Task) -> (r: Result<(Task, Vec<ReActStep>), AetherisError>)
        ensures
            r is Ok,
            ({
                let (t, steps) = r->Ok_0;
                &&& steps@.len() == react_shapes(self@.0).len()
                &&& forall|i: int| 0 <= i < steps@.len() ==> step_shape(#[trigger] steps@[i]) == react_shapes(self@.0)[i]
                &&& if self@.0 > 0 {
                    t@ == (TaskModel { status: TaskStatus::Completed, updated_at: t.updated_at, ..task@ })
                } else {
                    t@ == task@
                }
            }),
    {
        let mut steps: Vec<ReActStep> = Vec::new();
        let mut current = task;
        steps.push(ReActStep::think(String::from_str("Starting task execution...")));
        if self.max_iterations > 0 {
            steps.push(ReActStep::act(String::from_str("Iteration 1: Executing task")));
            steps.push(ReActStep::observe(String::from_str("Execution completed successfully")));
            steps.push(ReActStep::think(String::from_str("Task completed, no further actions needed")));
            current.mark_completed();
        }
        proof {
            let shapes = react_shapes(self.max_iterations);
            assert forall|i: int| 0 <= i < steps@.len() implies step_shape(#[trigger] steps@[i]) == shapes[i] by {
                if i == 0 {
                    assert(step_shape(steps@[0]) == shapes[0]);
                } else if i == 1 {
                    assert(step_shape(steps@[1]) == shapes[1]);
                } else if i == 2 {
                    assert(step_shape(steps@[2]) == shapes[2]);
                } else {
                    assert(step_shape(steps@[3]) == shapes[3]);
                }
            }
        }
        Ok((current, steps))
    }
}

} // verus!
