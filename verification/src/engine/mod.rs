//! The task execution core: tasks, plans, scheduling and coordination.

pub mod types;

pub mod planner;
pub mod plan_graph;
pub mod task_planner;
pub mod intent;
pub mod cache;
pub mod edge_cdn;
pub mod performance;
pub mod plugin;
pub mod progressive_loading;
pub mod reflect;
pub mod plan_execute;
pub mod realtime_scheduler;
pub mod smart_preload;
pub mod coordinator;
pub mod plan_edit;
pub mod decompose;
pub mod plan_run;
pub mod scheduler;
