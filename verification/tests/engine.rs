use aetheris::engine::plan_run::RoundAction;
use aetheris::engine::scheduler::TaskScheduler;
use aetheris::engine::cache::{CacheStats as TierStats, CacheTier, FileCache};
use aetheris::engine::coordinator::{fail_assignment, failure_decision, ExceptionAction, TaskAssignment, TaskAssignmentStatus};
use aetheris::engine::edge_cdn::{CdnConfig, CdnProvider, PurgeStatus};
use aetheris::engine::intent::{
    confidence_from_score, validate_constraints, Constraint, ConstraintType, Intent, IntentConfidence, IntentParser,
    ValidationResult,
};
use aetheris::engine::planner::{ExecutionPlan, TaskDependency, TaskDependencyType, TaskNode, TaskNodeStatus};
use aetheris::engine::realtime_scheduler::{PeriodicTask, RealTimeTask, RealTimeTaskConfig, TaskPriority};
use aetheris::engine::smart_preload::PreloadableType;
use aetheris::engine::task_planner::TaskPlanner;
use aetheris::engine::types::{Task, TaskStatus};
use aetheris::error::AetherisError;
use aetheris::json::JsonValue;

fn task(id: &str, description: &str, priority: u8) -> Task {
    let mut t = Task::new(description.to_string(), priority);
    t.id = id.to_string();
    t
}

#[test]
fn test_cdn_config_default() {
    let config = CdnConfig::default();
    assert!(!config.enabled);
    assert_eq!(config.cache_ttl_seconds, 86400);
    assert_eq!(config.provider, CdnProvider::Cloudflare);
    assert!(config.purge_on_update);
    assert_ne!(PurgeStatus::Pending, PurgeStatus::Completed);
}

#[test]
fn plan_makes_root_depend_on_every_sub_task() {
    let mut planner = TaskPlanner::new();
    let root = task("root", "ship it", 1);
    let subs = vec![task("a", "build", 5), task("b", "test", 10), task("a", "build again", 3)];
    let plan = planner.plan(root, subs).unwrap();
    assert_eq!(plan.root_task_id, "root");
    assert_eq!(plan.nodes.len(), 3);
    let a = plan.get_node("a").unwrap();
    assert_eq!(a.task.description, "build again");
    assert_eq!(a.estimated_duration_ms, 1700);
    assert_eq!(plan.get_node("b").unwrap().estimated_duration_ms, 1000);
    assert_eq!(plan.get_node("root").unwrap().estimated_duration_ms, 1900);
    assert_eq!(plan.dependencies.len(), 2);
    for d in &plan.dependencies {
        assert_eq!(d.target_task_id, "root");
        assert_eq!(d.dependency_type, TaskDependencyType::Hard);
    }
    let order = planner.topological_sort(&plan).unwrap();
    assert_eq!(order.len(), 3);
    assert_eq!(order[2], "root");
    let cp = planner.critical_path(&plan).unwrap();
    assert_eq!(cp.total_duration_ms, 2000);
    assert_eq!(cp.critical_path.len(), 3);
    assert!(cp.task_info.iter().all(|i| i.is_critical && i.slack_ms == 0));
}

#[test]
fn plan_of_a_single_task_has_no_dependencies() {
    let mut planner = TaskPlanner::new();
    let plan = planner.plan(task("solo", "alone", 10), vec![]).unwrap();
    assert_eq!(plan.nodes.len(), 1);
    assert!(plan.dependencies.is_empty());
    assert_eq!(planner.topological_sort(&plan).unwrap(), vec!["solo".to_string()]);
}

#[test]
fn topological_sort_refuses_a_cycle() {
    let mut planner = TaskPlanner::new();
    let mut plan = ExecutionPlan::new("x".to_string());
    plan.add_node(TaskNode::new(task("x", "x", 5)));
    plan.add_node(TaskNode::new(task("y", "y", 5)));
    plan.add_dependency(TaskDependency::new("x".to_string(), "y".to_string(), TaskDependencyType::Hard));
    plan.add_dependency(TaskDependency::new("y".to_string(), "x".to_string(), TaskDependencyType::Hard));
    assert!(matches!(planner.topological_sort(&plan), Err(AetherisError::Planning(_))));
    assert!(matches!(planner.critical_path(&plan), Err(AetherisError::Planning(_))));
}

#[test]
fn replan_retries_then_skips_hard_dependents() {
    let mut planner = TaskPlanner::new();
    let mut plan = ExecutionPlan::new("root".to_string());
    plan.add_node(TaskNode::new(task("root", "root", 5)));
    plan.add_node(TaskNode::new(task("a", "a", 5)).with_max_retries(2));
    plan.add_node(TaskNode::new(task("b", "b", 5)));
    plan.add_dependency(TaskDependency::new("a".to_string(), "root".to_string(), TaskDependencyType::Hard));
    plan.add_dependency(TaskDependency::new("a".to_string(), "b".to_string(), TaskDependencyType::Soft));
    let i = plan.find_node("a").unwrap();
    plan.nodes[i].mark_failed();
    let plan = planner.replan(plan, "a").unwrap();
    assert_eq!(plan.get_node("a").unwrap().status, TaskNodeStatus::Pending);
    let mut plan = plan;
    let i = plan.find_node("a").unwrap();
    plan.nodes[i].mark_failed();
    let plan = planner.replan(plan, "a").unwrap();
    assert_eq!(plan.get_node("a").unwrap().status, TaskNodeStatus::Failed);
    assert_eq!(plan.get_node("root").unwrap().status, TaskNodeStatus::Skipped);
    assert_eq!(plan.get_node("b").unwrap().status, TaskNodeStatus::Pending);
    let plan = planner.replan(plan, "missing").unwrap();
    assert_eq!(plan.nodes.len(), 3);
}

#[test]
fn add_and_remove_tasks() {
    let mut planner = TaskPlanner::new();
    let mut plan = planner.plan(task("root", "root", 5), vec![task("a", "a", 5)]).unwrap();
    planner.add_task_to_plan(&mut plan, task("c", "c", 5)).unwrap();
    assert_eq!(plan.nodes.len(), 3);
    assert!(matches!(planner.remove_task_from_plan(&mut plan, "root"), Err(AetherisError::Planning(_))));
    planner.remove_task_from_plan(&mut plan, "a").unwrap();
    assert_eq!(plan.nodes.len(), 2);
    assert!(plan.get_node("a").is_none());
    assert!(plan.dependencies.is_empty());
    assert!(plan.get_node("root").unwrap().dependencies.is_empty());
    planner.remove_task_from_plan(&mut plan, "nothing").unwrap();
    assert_eq!(plan.nodes.len(), 2);
    assert_eq!(planner.graph().nodes.len(), 2);
}

#[test]
fn decompose_by_sentences() {
    let planner = TaskPlanner::new();
    let parent = task("p", "Fetch data. Clean it;  \nReport", 4);
    let steps = planner.decompose_task_sync(&parent).unwrap();
    let descriptions: Vec<&str> = steps.iter().map(|t| t.description.as_str()).collect();
    assert_eq!(descriptions, vec!["Fetch data", "Clean it", "Report"]);
    assert!(steps.iter().all(|t| t.priority == 4 && t.status == TaskStatus::Pending));
    match &steps[1].metadata {
        JsonValue::Object(m) => {
            assert_eq!(m.len(), 2);
            assert_eq!(m[0].0, "parent_task_id");
            assert!(m[0].1.equals(&JsonValue::String("p".to_string())));
            assert_eq!(m[1].0, "step");
            assert!(m[1].1.equals(&JsonValue::Number("2".to_string())));
        },
        _ => panic!("metadata is an object"),
    }
    let whole = planner.decompose_task_sync(&task("q", " ;. ", 2)).unwrap();
    assert_eq!(whole.len(), 1);
    assert_eq!(whole[0].id, "q");
}

#[test]
fn intent_rules() {
    let parser = IntentParser::new();
    let intent = parser.parse_rules("  We need a secure report before Friday  ");
    assert_eq!(intent.parsed_goal, "We need a secure report before Friday");
    let kinds: Vec<ConstraintType> = intent.constraints.iter().map(|c| c.constraint_type).collect();
    assert_eq!(kinds, vec![ConstraintType::Security, ConstraintType::Time]);
    assert_eq!(intent.requirements, vec!["Requirement detected: need".to_string()]);
    assert!(intent.missing_information.is_empty());
    // 30 + 20 + 20 + 15 + 15
    assert_eq!(intent.confidence, IntentConfidence::VeryHigh);
    assert!(intent.is_executable());
    let short = parser.parse_rules("hi");
    assert_eq!(
        short.missing_information,
        vec!["More detailed description".to_string()]
    );
    assert_eq!(short.confidence, IntentConfidence::Low);
    let empty = parser.parse_rules("   ");
    assert_eq!(empty.missing_information.len(), 2);
    assert!(!empty.is_executable());
}

#[test]
fn confidence_buckets() {
    assert_eq!(confidence_from_score(30), IntentConfidence::Low);
    assert_eq!(confidence_from_score(31), IntentConfidence::Medium);
    assert_eq!(confidence_from_score(75), IntentConfidence::High);
    assert_eq!(confidence_from_score(100), IntentConfidence::VeryHigh);
    assert_eq!(confidence_from_score(101), IntentConfidence::Medium);
}

#[test]
fn constraint_validation() {
    let cs = vec![
        Constraint::new(ConstraintType::Security, "must".to_string(), true),
        Constraint::new(ConstraintType::Time, "soon".to_string(), false),
        Constraint::new(ConstraintType::Resource, "ok".to_string(), true),
    ];
    let r = validate_constraints(&cs, &vec![false, false, true]);
    assert!(!r.is_valid);
    assert_eq!(r.violated_constraints.len(), 1);
    assert_eq!(r.violated_constraints[0].description, "must");
    assert_eq!(r.warnings, vec!["Non-mandatory constraint violated: soon".to_string()]);
    let ok = validate_constraints(&cs, &vec![true, false, true]);
    assert!(ok.is_valid);
    let mut v = ValidationResult::valid();
    v.add_warning("w".to_string());
    assert_eq!(v.warnings.len(), 1);
    assert!(!ValidationResult::invalid(vec![]).is_valid);
}

#[test]
fn intent_to_task() {
    let parser = IntentParser::new();
    let intent = parser.parse_rules("Please prepare the monthly compliance report");
    let passes = vec![true; intent.constraints.len()];
    let t = parser.to_task(intent, &passes).unwrap();
    assert_eq!(t.description, "Please prepare the monthly compliance report");
    // 30 for the goal, 20 for its length, 20 for the compliance constraint,
    // 15 for nothing missing: very high, hence priority 1.
    assert_eq!(t.priority, 1);
    match &t.metadata {
        JsonValue::Object(m) => {
            assert_eq!(m[0].0, "confidence");
            assert!(m[0].1.equals(&JsonValue::String("VeryHigh".to_string())));
            assert_eq!(m[1].0, "constraints");
            assert_eq!(m[2].0, "intent_id");
        },
        _ => panic!("metadata is an object"),
    }
    let vague = parser.parse_rules("x");
    let passes = vec![true; vague.constraints.len()];
    assert!(matches!(parser.to_task(vague, &passes), Err(AetherisError::IntentValidation(_))));
}

#[test]
fn intent_from_model_reply() {
    let parser = IntentParser::new();
    let reply = JsonValue::Object(vec![
        ("goal".to_string(), JsonValue::String("Deploy".to_string())),
        (
            "constraints".to_string(),
            JsonValue::Array(vec![
                JsonValue::Object(vec![
                    ("type".to_string(), JsonValue::String("SECURITY".to_string())),
                    ("description".to_string(), JsonValue::String("audit".to_string())),
                    ("is_mandatory".to_string(), JsonValue::Bool(true)),
                ]),
                JsonValue::Object(vec![("type".to_string(), JsonValue::String("time".to_string()))]),
            ]),
        ),
        ("requirements".to_string(), JsonValue::Array(vec![JsonValue::String("r1".to_string()), JsonValue::Null])),
        ("confidence_score".to_string(), JsonValue::Number("60".to_string())),
    ]);
    let intent = parser.apply_llm_reply(Intent::new("deploy please".to_string()), &reply);
    assert_eq!(intent.parsed_goal, "Deploy");
    assert_eq!(intent.constraints.len(), 1);
    assert_eq!(intent.constraints[0].constraint_type, ConstraintType::Security);
    assert_eq!(intent.requirements, vec!["r1".to_string()]);
    assert_eq!(intent.confidence, IntentConfidence::High);
    let odd = JsonValue::Object(vec![("confidence_score".to_string(), JsonValue::Number("99999999999999999999".to_string()))]);
    let kept = parser.apply_llm_reply(Intent::new("x".to_string()), &odd);
    assert_eq!(kept.confidence, IntentConfidence::Low);
}

#[test]
fn assignments_and_failures() {
    let mut a = TaskAssignment::new("t".to_string(), "agent".to_string(), 2);
    assert!(a.is_active());
    a.mark_in_progress();
    assert_eq!(a.status, TaskAssignmentStatus::InProgress);
    a.mark_failed();
    assert!(a.can_retry());
    a.mark_failed();
    assert!(!a.can_retry());
    let d = failure_decision("t", a.can_retry());
    assert_eq!(d.decision, ExceptionAction::Fail);
    assert_eq!(d.reason, "Max retries exceeded");
    assert_eq!(failure_decision("t", true).decision, ExceptionAction::Retry);
}

#[test]
fn preloadable_types_by_number() {
    assert_eq!(PreloadableType::from_u8(0), Some(PreloadableType::Skill));
    assert_eq!(PreloadableType::from_u8(5), Some(PreloadableType::Config));
    assert_eq!(PreloadableType::from_u8(6), None);
}

#[test]
fn tier_stats() {
    let mut s = TierStats::new();
    s.record(CacheTier::L2, true);
    s.record(CacheTier::L2, false);
    assert_eq!(s.tier_counts(CacheTier::L2), (1, 1));
    s.reset();
    assert_eq!(s.tier_counts(CacheTier::L2), (0, 0));
}

#[test]
fn file_cache_names_files_by_digest() {
    let c = FileCache::new("/tmp/cache".to_string(), 10);
    assert_eq!(c.file_name("abc"), "900150983cd24fb0d6963f7d28e17f72");
    assert_eq!(c.max_file_count(), 10);
}

#[test]
fn periodic_task_settings() {
    let config = RealTimeTaskConfig {
        task_id: "tick".to_string(),
        name: "Tick".to_string(),
        priority: TaskPriority::High,
        deadline_ms: None,
        period_ms: Some(100),
        cpu_affinity: None,
        stack_size: None,
        max_execution_time_ms: None,
    };
    let t = PeriodicTask::new(config, 7u8);
    assert_eq!(t.task_id(), "tick");
    assert_eq!(t.config().priority.level(), 2);
    assert_eq!(*t.task_fn(), 7u8);
}

#[test]
fn refused_intent_lists_violated_constraints_as_debug_text() {
    let parser = IntentParser::new();
    let mut intent = Intent::new("deploy".to_string());
    intent.parsed_goal = "Deploy the service".to_string();
    intent.confidence = IntentConfidence::High;
    intent.constraints = vec![
        Constraint::new(ConstraintType::Security, "no \"root\"".to_string(), true)
            .with_validation_rules(vec!["a".to_string(), "b".to_string()]),
        Constraint::new(ConstraintType::Time, "soon".to_string(), false),
        Constraint::new(ConstraintType::Resource, "cpu".to_string(), true),
    ];
    let expected = format!("Intent validation failed: {:?}", vec![intent.constraints[0].clone(), intent.constraints[2].clone()]);
    match parser.to_task(intent, &vec![false, false, false]) {
        Err(AetherisError::IntentValidation(m)) => {
            assert_eq!(
                m,
                "Intent validation failed: [Constraint { constraint_type: Security, description: \"no \\\"root\\\"\", \
                 is_mandatory: true, validation_rules: [\"a\", \"b\"] }, Constraint { constraint_type: Resource, \
                 description: \"cpu\", is_mandatory: true, validation_rules: [] }]"
            );
            assert_eq!(m, expected);
        },
        _ => panic!("the intent is refused"),
    }
}

#[test]
fn missing_information_warning_lists_what_is_missing() {
    let parser = IntentParser::new();
    let mut intent = Intent::new("deploy".to_string());
    intent.parsed_goal = "Deploy".to_string();
    intent.confidence = IntentConfidence::Medium;
    intent.missing_information = vec!["target".to_string(), "when".to_string()];
    let r = parser.validate_intent(&intent, &vec![]);
    assert!(!r.is_valid);
    assert_eq!(r.warnings, vec!["Missing information: [\"target\", \"when\"]".to_string()]);
}

#[test]
fn valid_intent_becomes_a_pending_task() {
    let parser = IntentParser::new();
    let mut intent = Intent::new("deploy".to_string());
    intent.parsed_goal = "Deploy".to_string();
    intent.confidence = IntentConfidence::Low;
    let t = parser.to_task(intent, &vec![]);
    assert!(t.is_err());
    let mut intent = Intent::new("deploy".to_string());
    intent.parsed_goal = "Deploy".to_string();
    intent.confidence = IntentConfidence::Medium;
    let t = parser.to_task(intent, &vec![]).unwrap();
    assert_eq!(t.status, TaskStatus::Pending);
    assert_eq!(t.priority, 5);
    assert_eq!(t.title, "Deploy");
    assert!(t.tags.is_empty());
    assert!(t.result.is_none());
    assert_eq!(t.id.len(), 36);
}

#[test]
fn failing_a_task_marks_its_first_running_assignment() {
    let mut done = TaskAssignment::new("t1".to_string(), "a0".to_string(), 3);
    done.mark_completed();
    let mut first = TaskAssignment::new("t1".to_string(), "a1".to_string(), 2);
    first.mark_in_progress();
    let mut second = TaskAssignment::new("t1".to_string(), "a2".to_string(), 2);
    second.mark_in_progress();
    let mut assignments = vec![done, first, second];
    assert!(fail_assignment(&mut assignments, "t1"));
    assert_eq!(assignments[0].status, TaskAssignmentStatus::Completed);
    assert_eq!(assignments[1].status, TaskAssignmentStatus::Failed);
    assert_eq!(assignments[1].retry_count, 1);
    assert_eq!(assignments[2].status, TaskAssignmentStatus::InProgress);
    // The failed one is no longer running, so the next one is marked.
    assert!(fail_assignment(&mut assignments, "t1"));
    assert_eq!(assignments[2].status, TaskAssignmentStatus::Failed);
    assert!(!fail_assignment(&mut assignments, "t1"));
    assert!(!fail_assignment(&mut assignments, "other"));
    let mut last = TaskAssignment::new("t2".to_string(), "a3".to_string(), 1);
    last.mark_in_progress();
    let mut one = vec![last];
    assert!(!fail_assignment(&mut one, "t2"));
    assert_eq!(one[0].retry_count, 1);
}

#[test]
fn planned_nodes_record_their_links() {
    let mut planner = TaskPlanner::new();
    let plan = planner.plan(task("root", "root", 5), vec![task("a", "a", 5), task("b", "b", 3)]).unwrap();
    let root = plan.get_node("root").unwrap();
    assert_eq!(root.dependencies.len(), 2);
    assert!(root.dependents.is_empty());
    for id in ["a", "b"] {
        let n = plan.get_node(id).unwrap();
        assert!(n.dependencies.is_empty());
        assert_eq!(n.dependents, vec!["root".to_string()]);
    }
    assert!(!root.can_execute(&vec![]));
    assert!(!root.can_execute(&vec!["a".to_string()]));
    assert!(root.can_execute(&vec!["a".to_string(), "b".to_string()]));
}

fn member_text(v: &JsonValue, key: &str) -> Option<String> {
    match v {
        JsonValue::Object(m) => m.iter().find(|(k, _)| k == key).and_then(|(_, x)| match x {
            JsonValue::String(s) => Some(s.clone()),
            JsonValue::Number(s) => Some(s.clone()),
            _ => None,
        }),
        _ => None,
    }
}

#[test]
fn model_steps_become_sub_tasks() {
    let planner = TaskPlanner::new();
    let parent = task("order", "Process the order", 4);
    let reply = JsonValue::Object(vec![(
        "subtasks".to_string(),
        JsonValue::Array(vec![
            JsonValue::Object(vec![
                ("description".to_string(), JsonValue::String("Check stock".to_string())),
                ("order".to_string(), JsonValue::Number("1".to_string())),
                ("estimated_duration_minutes".to_string(), JsonValue::Number("5".to_string())),
            ]),
            JsonValue::Object(vec![("order".to_string(), JsonValue::Number("2".to_string()))]),
            JsonValue::Object(vec![
                ("description".to_string(), JsonValue::String("Ship".to_string())),
                ("estimated_duration_minutes".to_string(), JsonValue::Number("2.5".to_string())),
            ]),
        ]),
    )]);
    let steps = planner.decompose_from_llm_reply(&parent, &reply).unwrap();
    assert_eq!(steps.len(), 2);
    assert_eq!(steps[0].description, "Check stock");
    assert_eq!(steps[0].priority, 4);
    assert_eq!(steps[0].status, TaskStatus::Pending);
    assert_eq!(member_text(&steps[0].metadata, "parent_task_id"), Some("order".to_string()));
    assert_eq!(member_text(&steps[0].metadata, "step"), Some("1".to_string()));
    assert_eq!(member_text(&steps[0].metadata, "estimated_duration_minutes"), Some("5".to_string()));
    assert_eq!(steps[1].description, "Ship");
    assert_eq!(member_text(&steps[1].metadata, "step"), Some("3".to_string()));
    assert_eq!(member_text(&steps[1].metadata, "estimated_duration_minutes"), None);
}

#[test]
fn unusable_model_reply_falls_back_to_the_rules() {
    let planner = TaskPlanner::new();
    let parent = task("p", "Collect data. Write report", 2);
    let empty = JsonValue::Object(vec![("subtasks".to_string(), JsonValue::Array(vec![]))]);
    for reply in [JsonValue::Null, empty] {
        let steps = planner.decompose_from_llm_reply(&parent, &reply).unwrap();
        assert_eq!(steps.len(), 2);
        assert_eq!(steps[0].description, "Collect data");
        assert_eq!(steps[1].description, "Write report");
    }
}

fn run_ids(a: &RoundAction) -> Vec<String> {
    match a {
        RoundAction::Run(ids) => ids.clone(),
        other => panic!("expected a round to run, got {:?}", other),
    }
}

#[test]
fn plan_runs_round_by_round() {
    let mut planner = TaskPlanner::new();
    let plan = planner.plan(task("root", "root", 5), vec![task("a", "a", 5), task("b", "b", 5)]).unwrap();
    let (plan, action) = planner.execution_round(plan, &vec![]).unwrap();
    assert_eq!(run_ids(&action), vec!["a".to_string(), "b".to_string()]);
    assert_eq!(plan.get_node("a").unwrap().status, TaskNodeStatus::Running);
    assert_eq!(plan.get_node("root").unwrap().status, TaskNodeStatus::Pending);
    let (plan, action) = planner.execution_round(plan, &vec![("a".to_string(), true), ("b".to_string(), true)]).unwrap();
    assert_eq!(run_ids(&action), vec!["root".to_string()]);
    assert_eq!(plan.get_node("a").unwrap().actual_duration_ms, Some(1000));
    let (plan, action) = planner.execution_round(plan, &vec![("root".to_string(), true)]).unwrap();
    assert!(matches!(action, RoundAction::Completed));
    assert!(plan.is_complete());
}

#[test]
fn failed_node_is_retried_then_fails_the_plan() {
    let mut planner = TaskPlanner::new();
    let plan = planner.plan(task("root", "root", 5), vec![task("b", "b", 5)]).unwrap();
    let (mut plan, mut action) = planner.execution_round(plan, &vec![]).unwrap();
    assert_eq!(run_ids(&action), vec!["b".to_string()]);
    for attempt in 1..=3u32 {
        let (p, a) = planner.execution_round(plan, &vec![("b".to_string(), false)]).unwrap();
        plan = p;
        action = a;
        assert_eq!(plan.get_node("b").unwrap().retry_count, attempt);
        if attempt < 3 {
            assert_eq!(run_ids(&action), vec!["b".to_string()]);
        }
    }
    assert!(matches!(action, RoundAction::Failed));
    assert_eq!(plan.get_node("b").unwrap().status, TaskNodeStatus::Failed);
    assert_eq!(plan.get_node("root").unwrap().status, TaskNodeStatus::Skipped);
}

#[test]
fn parallel_batches_follow_the_dependencies() {
    let mut planner = TaskPlanner::new();
    let mut plan = ExecutionPlan::new("d".to_string());
    for id in ["d", "a", "b", "c"] {
        plan.add_node(TaskNode::new(task(id, id, 5)));
    }
    // a before b and c; b and c before d.
    plan.add_dependency(TaskDependency::new("a".to_string(), "b".to_string(), TaskDependencyType::Hard));
    plan.add_dependency(TaskDependency::new("a".to_string(), "c".to_string(), TaskDependencyType::Hard));
    plan.add_dependency(TaskDependency::new("b".to_string(), "d".to_string(), TaskDependencyType::Hard));
    plan.add_dependency(TaskDependency::new("c".to_string(), "d".to_string(), TaskDependencyType::Hard));
    let batches = planner.parallel_batches(&plan).unwrap();
    assert_eq!(
        batches,
        vec![vec!["a".to_string()], vec!["b".to_string(), "c".to_string()], vec!["d".to_string()]]
    );
    let mut planner = TaskPlanner::new();
    let planned = planner.plan(task("root", "root", 5), vec![task("x", "x", 5), task("y", "y", 5)]).unwrap();
    assert_eq!(
        planner.parallel_batches(&planned).unwrap(),
        vec![vec!["x".to_string(), "y".to_string()], vec!["root".to_string()]]
    );
    let mut planner = TaskPlanner::new();
    assert!(planner.parallel_batches(&ExecutionPlan::new("none".to_string())).unwrap().is_empty());
}

#[test]
fn parallel_batches_refuse_a_cycle() {
    let mut planner = TaskPlanner::new();
    let mut plan = ExecutionPlan::new("x".to_string());
    plan.add_node(TaskNode::new(task("x", "x", 5)));
    plan.add_node(TaskNode::new(task("y", "y", 5)));
    plan.add_dependency(TaskDependency::new("x".to_string(), "y".to_string(), TaskDependencyType::Hard));
    plan.add_dependency(TaskDependency::new("y".to_string(), "x".to_string(), TaskDependencyType::Hard));
    assert!(matches!(planner.parallel_batches(&plan), Err(AetherisError::Planning(_))));
}

#[test]
fn scheduler_pops_the_most_urgent_earliest_task() {
    let mut s = TaskScheduler::new();
    assert!(s.is_empty());
    assert!(s.pop_task().is_none());
    s.schedule_at(task("low", "low", 1), 10);
    s.schedule_at(task("late", "late", 7), 30);
    s.schedule_at(task("early", "early", 7), 20);
    s.schedule_at(task("same", "same", 7), 20);
    assert_eq!(s.len(), 4);
    assert_eq!(s.pop_task().unwrap().id, "early");
    assert_eq!(s.pop_task().unwrap().id, "same");
    assert_eq!(s.pop_task().unwrap().id, "late");
    assert_eq!(s.pop_task().unwrap().id, "low");
    assert!(s.pop_task().is_none());
    let mut d = TaskScheduler::default();
    d.schedule(task("now", "now", 3));
    assert_eq!(d.len(), 1);
    assert_eq!(d.pop_task().unwrap().id, "now");
}
