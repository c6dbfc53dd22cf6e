use spaceone::prioritizer::{PriorityWeights, TaskPrioritizer};
use spaceone::tasks::{MarsTask, TaskCategory, TaskId, TaskStatus};

fn make_task(id: &str, category: TaskCategory, deadline: Option<i64>, value_milli: u16) -> MarsTask {
    MarsTask {
        id: TaskId(id.into()),
        name: id.into(),
        category,
        priority: 50,
        deadline,
        estimated_duration_secs: 300,
        dependencies: vec![],
        required_resources: vec![],
        executing_node: None,
        status: TaskStatus::Queued,
        created_at: chrono::Utc::now().timestamp_millis(),
        scientific_value_milli: value_milli,
    }
}

#[test]
fn test_emergency_always_first() {
    let prioritizer = TaskPrioritizer::new();
    let tasks = vec![
        make_task("science", TaskCategory::Science, None, 900),
        make_task("emergency", TaskCategory::Emergency, None, 100),
        make_task("nav", TaskCategory::Navigation, None, 500),
    ];
    let references: Vec<&MarsTask> = tasks.iter().collect();
    let result = prioritizer.prioritize(&references);
    assert_eq!(result[0].id.0, "emergency");
}

#[test]
fn test_urgency_with_deadline() {
    let prioritizer = TaskPrioritizer::new();
    let now = chrono::Utc::now().timestamp_millis();
    let urgent = make_task("urgent", TaskCategory::Science, Some(now + 5 * 60_000), 800);
    let relaxed = make_task("relaxed", TaskCategory::Science, Some(now + 24 * 3_600_000), 800);
    let score_urgent = prioritizer.score_task(&urgent);
    let score_relaxed = prioritizer.score_task(&relaxed);
    assert!(score_urgent.urgency_score > score_relaxed.urgency_score);
}

#[test]
fn test_custom_weights() {
    let weights = PriorityWeights {
        urgency_weight_milli: 500,
        science_weight_milli: 100,
        category_weight_milli: 300,
        dependency_weight_milli: 100,
    };
    let prioritizer = TaskPrioritizer::with_weights(weights);
    let task = make_task("test", TaskCategory::Emergency, None, 500);
    let score = prioritizer.score_task(&task);
    assert!((score.category_score as i64 - 1000).abs() < 10);
}

#[test]
fn scores_are_weighted_sums() {
    let p = TaskPrioritizer::new();
    let t = make_task("science", TaskCategory::Science, None, 900);
    let s = p.score_task_at(&t, 0);
    assert_eq!(s.urgency_score, 500);
    assert_eq!(s.science_score, 900);
    assert_eq!(s.category_score, 700);
    assert_eq!(s.dependency_score, 1000);
    assert_eq!(s.total_score, 300 * 500 + 250 * 900 + 300 * 700 + 150 * 1000);
    assert_eq!(s.task_id, TaskId("science".into()));
}

#[test]
fn urgency_falls_over_the_last_day() {
    let p = TaskPrioritizer::new();
    let now: i64 = 1_000_000_000_000;
    let at = |d: i64| p.score_task_at(&make_task("t", TaskCategory::Science, Some(d), 0), now).urgency_score;
    assert_eq!(at(now), 1000);
    assert_eq!(at(now - 1), 1000);
    // Less than a minute left counts as one minute.
    assert_eq!(at(now + 30_000), 999);
    assert_eq!(at(now + 720 * 60_000), 500);
    assert_eq!(at(now + 1440 * 60_000), 0);
    assert_eq!(at(now + 5000 * 60_000), 0);
}

#[test]
fn readiness_depends_on_status_with_dependencies() {
    let p = TaskPrioritizer::new();
    let mut t = make_task("t", TaskCategory::Maintenance, None, 0);
    t.dependencies.push(TaskId("before".into()));
    for (status, expected) in [
        (TaskStatus::Queued, 500),
        (TaskStatus::Scheduled, 700),
        (TaskStatus::InProgress, 300),
        (TaskStatus::Completed, 0),
        (TaskStatus::Failed, 0),
    ] {
        t.status = status;
        assert_eq!(p.score_task_at(&t, 0).dependency_score, expected);
    }
}

#[test]
fn order_is_by_score_and_stable() {
    let p = TaskPrioritizer::new();
    let tasks = vec![
        make_task("nav-a", TaskCategory::Navigation, None, 500),
        make_task("life", TaskCategory::LifeSupport, None, 500),
        make_task("nav-b", TaskCategory::Navigation, None, 500),
        make_task("emergency", TaskCategory::Emergency, None, 0),
        make_task("comm", TaskCategory::Communication, None, 500),
    ];
    let refs: Vec<&MarsTask> = tasks.iter().collect();
    let order = p.priority_order_at(&refs, 0);
    assert_eq!(order, vec![3, 1, 4, 0, 2]);
    let names: Vec<String> = p.prioritize_at(&refs, 0).iter().map(|t| t.id.0.clone()).collect();
    assert_eq!(names, vec!["emergency", "life", "comm", "nav-a", "nav-b"]);
    assert!(p.prioritize(&[]).is_empty());
}

#[test]
fn higher_category_scores_higher() {
    let p = TaskPrioritizer::with_weights(PriorityWeights::default());
    let life = p.score_task_at(&make_task("a", TaskCategory::LifeSupport, None, 400), 0);
    let science = p.score_task_at(&make_task("b", TaskCategory::Science, None, 400), 0);
    assert!(life.total_score > science.total_score);
}
