use spaceone::conflict_resolver::{ConflictResolver, ConflictType, ResolutionStrategy};
use spaceone::contingency_planner::{milli_to_text, AnomalyType, ContingencyAction, ContingencyPlanner, SeverityLevel};
use spaceone::tasks::{MarsTask, ResourceRequirement, TaskCategory, TaskId, TaskStatus};

fn make_task(id: &str, priority: u16, resources: Vec<ResourceRequirement>, duration: u32) -> MarsTask {
    MarsTask {
        id: TaskId(id.into()),
        name: id.into(),
        category: TaskCategory::Science,
        priority,
        deadline: None,
        estimated_duration_secs: duration,
        dependencies: vec![],
        required_resources: resources,
        executing_node: None,
        status: TaskStatus::InProgress,
        created_at: 1_700_000_000_000,
        scientific_value_milli: 700,
    }
}

fn req(resource_type: &str, amount_milli: u64, unit: &str, critical: bool) -> ResourceRequirement {
    ResourceRequirement { resource_type: resource_type.into(), amount_milli, unit: unit.into(), critical }
}

#[test]
fn test_detect_resource_conflict() {
    let resolver = ConflictResolver::new();
    let t1 = make_task("task-a", 80, vec![req("power", 50_000, "W", true)], 300);
    let t2 = make_task("task-b", 60, vec![req("power", 40_000, "W", true)], 300);
    let tasks = vec![&t1, &t2];
    let resolutions = resolver.resolve(&tasks);

    assert_eq!(resolutions.len(), 1);
    assert!(matches!(resolutions[0].strategy, ResolutionStrategy::Sequentialize { .. }));
}

#[test]
fn test_no_conflict_different_resources() {
    let resolver = ConflictResolver::new();
    let t1 = make_task("task-a", 80, vec![req("power", 50_000, "W", true)], 300);
    let t2 = make_task("task-b", 60, vec![req("comms", 10_000, "kbps", false)], 300);
    let tasks = vec![&t1, &t2];
    let resolutions = resolver.resolve(&tasks);

    assert!(resolutions.is_empty());
}

#[test]
fn test_higher_priority_precedence() {
    let resolver = ConflictResolver::new();
    let high = make_task("high-priority", 95, vec![req("arm", 1_000, "unit", true)], 300);
    let low = make_task("low-priority", 30, vec![req("arm", 1_000, "unit", true)], 300);
    let tasks = vec![&high, &low];
    let resolutions = resolver.resolve(&tasks);

    assert_eq!(resolutions.len(), 1);
    if let ResolutionStrategy::Sequentialize { delay_task, .. } = &resolutions[0].strategy {
        assert_eq!(delay_task.0, "low-priority");
    } else {
        panic!("Expected Sequentialize strategy");
    }
}

#[test]
fn lower_priority_first_is_still_the_one_delayed() {
    let resolver = ConflictResolver::new();
    let low = make_task("low", 10, vec![req("drill", 1_000, "unit", true)], 60);
    let high = make_task("high", 90, vec![req("drill", 1_000, "unit", true)], 60);
    let tasks = vec![&low, &high];
    let resolutions = resolver.resolve(&tasks);
    assert_eq!(resolutions.len(), 1);
    match &resolutions[0].strategy {
        ResolutionStrategy::Sequentialize { keep_order, delay_task, delay_by_secs } => {
            assert_eq!(delay_task.0, "low");
            assert_eq!(keep_order[0].0, "high");
            assert_eq!(*delay_by_secs, 60);
        }
        _ => panic!("Expected Sequentialize strategy"),
    }
    assert!(matches!(resolutions[0].conflict_type, ConflictType::ResourceConflict { .. }));
}

fn make_task_list() -> Vec<MarsTask> {
    let mut science = make_task("science-1", 70, vec![req("power", 30_000, "W", true)], 600);
    science.name = "Soil Analysis".into();
    science.status = TaskStatus::Scheduled;
    science.scientific_value_milli = 900;
    let mut nav = make_task("nav-1", 50, vec![], 1800);
    nav.name = "Navigate to crater".into();
    nav.category = TaskCategory::Navigation;
    nav.dependencies = vec![TaskId("science-1".into())];
    nav.status = TaskStatus::Queued;
    nav.scientific_value_milli = 600;
    vec![science, nav]
}

#[test]
fn test_contingency_plan_for_failed_task() {
    let planner = ContingencyPlanner::new();
    let tasks = make_task_list();
    let failed = &tasks[0];

    let plan = planner.plan(failed, &tasks).unwrap();
    assert!(plan.actions.len() >= 2);
    assert_eq!(plan.severity, SeverityLevel::High);
    assert!(plan.plan_id.starts_with("contingency-"));
}

#[test]
fn failed_task_plan_actions_in_order() {
    let planner = ContingencyPlanner::new();
    let tasks = make_task_list();
    let plan = planner.plan_at(&tasks[0], &tasks, 5_000, "20300101000000").unwrap();
    assert_eq!(plan.plan_id, "contingency-science-1-20300101000000");
    assert_eq!(plan.actions.len(), 3);
    match &plan.actions[0] {
        ContingencyAction::Reschedule { task_id, reason, delay_seconds, new_priority } => {
            assert_eq!(task_id.0, "science-1");
            assert_eq!(reason, "Retrying failed task: Soil Analysis");
            assert_eq!(*delay_seconds, 600);
            assert_eq!(*new_priority, Some(80));
        }
        _ => panic!("expected a retry"),
    }
    match &plan.actions[1] {
        ContingencyAction::Reschedule { task_id, delay_seconds, new_priority, .. } => {
            assert_eq!(task_id.0, "nav-1");
            assert_eq!(*delay_seconds, 1200);
            assert_eq!(*new_priority, None);
        }
        _ => panic!("expected the dependent task to be delayed"),
    }
    match &plan.actions[2] {
        ContingencyAction::NotifyMissionControl { severity, summary, .. } => {
            assert_eq!(*severity, SeverityLevel::High);
            assert_eq!(summary, "Task science-1 failed with severity High");
        }
        _ => panic!("expected a notification"),
    }
    assert!(matches!(plan.triggered_by, AnomalyType::TaskFailure { .. }));
    assert_eq!(plan.created_at, 5_000);
}

#[test]
fn test_resource_loss_plan() {
    let planner = ContingencyPlanner::new();
    let tasks = make_task_list();

    let plan = planner.plan_resource_loss("power", 50_000, &tasks).unwrap();
    assert_eq!(plan.severity, SeverityLevel::Moderate);
    assert!(plan.actions.len() >= 1);
}

#[test]
fn test_emergency_task_severity() {
    let planner = ContingencyPlanner::new();
    let mut task = make_task("emergency-1", 100, vec![], 30);
    task.name = "Emergency shutdown".into();
    task.category = TaskCategory::Emergency;
    task.status = TaskStatus::Failed;
    task.scientific_value_milli = 0;

    let plan = planner.plan(&task, &[]).unwrap();
    assert_eq!(plan.severity, SeverityLevel::Critical);
}

#[test]
fn milli_quantities_print_like_floats() {
    assert_eq!(milli_to_text(50_000), "50");
    assert_eq!(milli_to_text(1_500), "1.5");
    assert_eq!(milli_to_text(-25), "-0.025");
    assert_eq!(milli_to_text(0), "0");
}

#[test]
fn longest_single_task_needs_no_pair_bound() {
    let t = make_task("long", 10, vec![], u32::MAX);
    let refs = vec![&t];
    assert!(ConflictResolver::with_limit(0).resolve(&refs).is_empty());
    assert!(ConflictResolver::new().resolve(&refs).is_empty());
}
