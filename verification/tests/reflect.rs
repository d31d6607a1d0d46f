use aetheris::engine::plan_execute::{PlanExecuteState, PlanExecuteStatus, ReActEngine, ReActStep, ReActStepType};
use aetheris::engine::reflect::{
    Critique, CritiqueSeverity, ExecutionHistory, ExecutionReport, Improvement, Reflector,
};
use aetheris::engine::types::{Task, TaskStatus};

fn task(id: &str, description: &str, priority: u8) -> Task {
    let mut t = Task::new(description.to_string(), priority);
    t.id = id.to_string();
    t
}

#[test]
fn critique_with_suggestion_keeps_fields() {
    let c = Critique::new("t1".to_string(), CritiqueSeverity::Warning, "Cat".to_string(), "Desc".to_string())
        .with_suggestion("Do better".to_string());
    assert_eq!(c.task_id, "t1");
    assert_eq!(c.severity, CritiqueSeverity::Warning);
    assert_eq!(c.suggestion, "Do better");
    assert_eq!(c.critique_id.len(), 36);
}

#[test]
fn report_duration_is_end_minus_start() {
    let r = ExecutionReport::new("t1".to_string(), true).with_duration(1_000, 13_500);
    assert_eq!(r.duration_ms, 12_500);
    assert_eq!(r.metrics.duration_ms, 12_500);
    assert_eq!(r.start_time, Some(1_000));
    assert_eq!(r.end_time, Some(13_500));
}

#[test]
fn report_filters_critiques_by_severity() {
    let mut r = ExecutionReport::new("t1".to_string(), false);
    r.add_critique(Critique::new("t1".to_string(), CritiqueSeverity::Info, "a".to_string(), "x".to_string()));
    r.add_critique(Critique::new("t1".to_string(), CritiqueSeverity::Error, "b".to_string(), "y".to_string()));
    r.add_critique(Critique::new("t1".to_string(), CritiqueSeverity::Info, "c".to_string(), "z".to_string()));
    let infos = r.get_critiques_by_severity(&CritiqueSeverity::Info);
    assert_eq!(infos.len(), 2);
    assert_eq!(infos[0].category, "a");
    assert_eq!(infos[1].category, "c");
    assert!(r.has_errors(&CritiqueSeverity::Error));
    assert!(!r.has_errors(&CritiqueSeverity::Critical));
}

#[test]
fn analyze_short_high_priority_task() {
    let mut reflector = Reflector::new();
    let mut t = task("t1", "short", 9);
    t.status = TaskStatus::Completed;
    let report = reflector.analyze(&t).unwrap();
    assert!(report.success);
    assert_eq!(report.critiques.len(), 2);
    assert_eq!(report.critiques[0].severity, CritiqueSeverity::Warning);
    assert_eq!(report.critiques[0].category, "TaskDescription");
    assert_eq!(report.critiques[1].severity, CritiqueSeverity::Info);
    assert_eq!(report.critiques[1].category, "TaskPriority");
    assert_eq!(
        report.lessons_learned,
        vec![
            "Task completed successfully".to_string(),
            "Suggestion: Provide more detailed task description".to_string()
        ]
    );
    let stored = reflector.get_history().get_reports_for_task("t1");
    assert_eq!(stored.len(), 1);
    assert_eq!(stored[0].report_id, report.report_id);
}

#[test]
fn analyze_failed_task_with_long_description() {
    let mut reflector = Reflector::new();
    let t = task("t2", "a description that is long enough", 5);
    let report = reflector.analyze(&t).unwrap();
    assert!(!report.success);
    assert!(report.critiques.is_empty());
    assert_eq!(report.lessons_learned, vec!["Task failed, review error logs".to_string()]);
}

#[test]
fn optimize_turns_suggestions_into_improvements() {
    let reflector = Reflector::new();
    let mut r = ExecutionReport::new("t1".to_string(), true);
    r.add_critique(
        Critique::new("t1".to_string(), CritiqueSeverity::Warning, "c".to_string(), "too slow".to_string())
            .with_suggestion("cache results".to_string()),
    );
    r.add_critique(Critique::new("t1".to_string(), CritiqueSeverity::Info, "c".to_string(), "fine".to_string()));
    let improvements = reflector.optimize(&r).unwrap();
    assert_eq!(improvements.len(), 1);
    assert_eq!(improvements[0].description, "too slow");
    assert_eq!(improvements[0].before_state, "Before: too slow");
    assert_eq!(improvements[0].after_state, "After: cache results");
    assert_eq!(improvements[0].applied_at, None);
}

#[test]
fn improvement_mark_applied_stamps_time() {
    let mut i = Improvement::new("t".to_string(), "d".to_string(), "b".to_string(), "a".to_string());
    assert!(i.applied_at.is_none());
    i.mark_applied();
    assert!(i.applied_at.is_some());
    assert_eq!(i.description, "d");
}

#[test]
fn strategy_advice_from_failures_and_slow_runs() {
    let mut history = ExecutionHistory::new();
    history.store_report(ExecutionReport::new("t1".to_string(), false).with_duration(0, 40_000));
    history.store_report(ExecutionReport::new("t1".to_string(), false).with_duration(0, 40_000));
    history.store_report(ExecutionReport::new("t1".to_string(), true).with_duration(0, 40_000));
    let reflector = Reflector::new().with_history(history);
    let advice = reflector.generate_strategy_optimization(&task("t1", "anything", 1)).unwrap();
    assert_eq!(
        advice,
        vec![
            "Consider simplifying task approach".to_string(),
            "Break task into smaller steps".to_string(),
            "Consider parallel execution".to_string()
        ]
    );
    let none = reflector.generate_strategy_optimization(&task("t9", "anything", 1)).unwrap();
    assert!(none.is_empty());
}

#[test]
fn history_replaces_report_with_same_id() {
    let mut history = ExecutionHistory::new();
    let r = ExecutionReport::new("t1".to_string(), false);
    let id = r.report_id.clone();
    let mut again = r.duplicate();
    again.success = true;
    history.store_report(r);
    history.store_report(again);
    let got = history.get_report(&id).unwrap();
    assert!(got.success);
    let latest = history.get_latest_report_for_task("t1").unwrap();
    assert!(latest.success);
    assert_eq!(history.get_reports_for_task("t1").len(), 2);
    assert!(history.get_report("missing").is_none());
}

#[test]
fn react_engine_runs_one_iteration() {
    let engine = ReActEngine::new();
    assert_eq!(engine.max_iterations(), 10);
    let (t, steps) = engine.run(task("t1", "do it", 1)).unwrap();
    assert_eq!(t.status, TaskStatus::Completed);
    let kinds: Vec<ReActStepType> = steps.iter().map(|s| s.step_type).collect();
    assert_eq!(kinds, vec![ReActStepType::Think, ReActStepType::Act, ReActStepType::Observe, ReActStepType::Think]);
    assert_eq!(steps[1].content, "Iteration 1: Executing task");
}

#[test]
fn react_engine_without_iterations_only_thinks() {
    let engine = ReActEngine::new().with_max_iterations(0).with_reflector(Reflector::new());
    let (t, steps) = engine.run(task("t1", "do it", 1)).unwrap();
    assert_eq!(t.status, TaskStatus::Pending);
    assert_eq!(steps.len(), 1);
    assert_eq!(steps[0].content, "Starting task execution...");
}

#[test]
fn plan_execute_state_lifecycle() {
    let mut s = PlanExecuteState::new(task("t1", "x", 1), 3);
    assert_eq!(s.status, PlanExecuteStatus::Planning);
    s.add_react_step(ReActStep::think("thinking".to_string()).with_observation("seen".to_string()));
    assert_eq!(s.react_steps.len(), 1);
    assert_eq!(s.react_steps[0].observation, Some("seen".to_string()));
    s.advance_step();
    assert_eq!(s.current_step_index, 1);
    s.mark_failed();
    assert_eq!(s.status, PlanExecuteStatus::Failed);
    assert_eq!(s.retry_count, 1);
    s.mark_completed();
    assert_eq!(s.status, PlanExecuteStatus::Completed);
}
