//! Real-time tasks: priorities, settings, and periodic tasks.

use vstd::prelude::*;

verus! {

/// How urgent a real-time task is, from low to real time.
#[derive(Debug, Clone, Copy, PartialEq, Eq, Structural)]
pub enum TaskPriority {
    Low,
    Normal,
    High,
    Critical,
    RealTime,
}

impl TaskPriority {
    /// The priority's level: 0 for low up to 4 for real time.
    pub fn level(&self) -> (r: u8)
        ensures
            r == match *self {
                TaskPriority::Low => 0u8,
                TaskPriority::Normal => 1u8,
                TaskPriority::High => 2u8,
                TaskPriority::Critical => 3u8,
                TaskPriority::RealTime => 4u8,
            },
    {
        match self {
            TaskPriority::Low => 0,
            TaskPriority::Normal => 1,
            TaskPriority::High => 2,
            TaskPriority::Critical => 3,
            TaskPriority::RealTime => 4,
        }
    }
}

/// How a real-time task runs. Durations are in milliseconds.
#[derive(Debug, Clone)]
pub struct RealTimeTaskConfig {
    pub task_id: String,
    pub name: String,
    pub priority: TaskPriority,
    pub deadline_ms: Option<u64>,
    pub period_ms: Option<u64>,
    pub cpu_affinity: Option<Vec<usize>>,
    pub stack_size: Option<usize>,
    pub max_execution_time_ms: Option<u64>,
}

/// Where the scheduler stands.
#[derive(Debug, Clone, Copy, PartialEq, Eq, Structural)]
pub enum SchedulerStatus {
    Idle,
    Running,
    Paused,
    Overloaded,
    Error,
}

/// A task the real-time scheduler runs: it has an id and settings (running
/// it is the scheduler's business).
pub trait RealTimeTask {
    /// The task's id.
    fn task_id(&self) -> &str;

    /// The task's settings.
    fn config(&self) -> &RealTimeTaskConfig;
}

/// A task that runs a function on a period.
pub struct PeriodicTask<F> {
    config: RealTimeTaskConfig,
    task_fn: F,
}

impl<F> PeriodicTask<F> {
    /// A task running the function with these settings.
    pub fn new(config: RealTimeTaskConfig, task_fn: F) -> (t: PeriodicTask<F>)
        ensures
            t.settings() == config,
            t.function() == task_fn,
    {
        PeriodicTask { config, task_fn }
    }

    /// The task's settings.
    pub closed spec fn settings(&self) -> RealTimeTaskConfig {
        self.config
    }

    /// The function the task runs.
    pub closed spec fn function(&self) -> F {
        self.task_fn
    }

    /// The function the task runs.
    pub fn task_fn(&self) -> (f: &F)
        ensures
            *f == self.function(),
    {
        &self.task_fn
    }
}

impl<F> RealTimeTask for PeriodicTask<F> {
    fn task_id(&self) -> (r: &str)
        ensures
            r@ == self.settings().task_id@,
    {
        self.config.task_id.as_str()
    }

    fn config(&self) -> (r: &RealTimeTaskConfig)
        ensures
            *r == self.settings(),
    {
        &self.config
    }
}

} // verus!
