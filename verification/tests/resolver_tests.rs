use project_domain::scheduling::conflict_resolver::{
    ConflictResolution, ConflictResolutionReport, ConflictResolver, ResolutionMethod, ResolutionStrategy,
};
use project_domain::scheduling::scheduler::{
    ConflictSeverity, ProjectSchedule, ResourceConflict, ScheduledTask, TimeRange, DAY_MILLIS,
};

const HOUR: i64 = 3_600_000;

fn create_test_schedule() -> ProjectSchedule {
    let start = chrono::Utc::now().timestamp_millis();
    ProjectSchedule::new("TEST-PROJ".to_string(), start)
}

fn task(id: &str, es_days: i64, ls_days: i64) -> ScheduledTask {
    ScheduledTask::new(id.to_string(), es_days * DAY_MILLIS, ls_days * DAY_MILLIS, DAY_MILLIS)
}

fn conflict(resource: &str, tasks: &[&str], severity: ConflictSeverity) -> ResourceConflict {
    ResourceConflict {
        resource_id: resource.to_string(),
        conflicting_tasks: tasks.iter().map(|s| s.to_string()).collect(),
        conflict_period: TimeRange { start: 0, end: 2 * HOUR },
        severity,
        suggested_resolution: None,
    }
}

fn schedule(conflicts: Vec<ResourceConflict>) -> ProjectSchedule {
    let mut s = ProjectSchedule::new("P".to_string(), 0);
    s.tasks = vec![task("a", 0, 0), task("b", 0, 3)];
    s.resource_assignments = vec![("r1".to_string(), vec!["a".to_string(), "b".to_string()])];
    s.conflicts = conflicts;
    s
}

#[test]
fn test_conflict_resolver_creation() {
    let schedule = create_test_schedule();
    let resolver = ConflictResolver::new(schedule);
    assert_eq!(resolver.resolution_strategies.len(), 5);
    assert!(resolver.conflict_history.is_empty());
}

#[test]
fn conflict_resolver_test_conflict_resolution_creation() {
    let resolution = ConflictResolution::new("resource-1".to_string());
    assert_eq!(resolution.method, ResolutionMethod::Failed);
    assert!(resolution.affected_tasks.is_empty());
}

#[test]
fn test_resolution_report_creation() {
    let report = ConflictResolutionReport::new();
    assert_eq!(report.total_conflicts, 0);
    // Nothing resolved: the share of resolved conflicts is zero.
    assert_eq!(report.resolved_conflicts, 0);
}

#[test]
fn test_time_shifting_moves_the_task_with_most_slack() {
    let mut resolver = ConflictResolver::new(schedule(vec![conflict("r1", &["a", "b"], ConflictSeverity::High)]));
    let report = resolver.resolve_all_conflicts_at(42).unwrap();
    assert_eq!(report.total_conflicts, 1);
    assert_eq!(report.resolved_conflicts, 1);
    let r = &report.successful_resolutions[0];
    assert_eq!(r.method, ResolutionMethod::TimeShifting);
    assert_eq!(r.description, "Shifted task b by 3 hours");
    assert_eq!(r.delay, 3 * HOUR);
    assert_eq!(r.affected_tasks, vec!["b".to_string()]);
    assert_eq!(resolver.schedule.get_task("b").unwrap().early_start, 3 * HOUR);
    assert_eq!(resolver.conflict_history.len(), 1);
    assert_eq!(resolver.conflict_history[0].timestamp, 42);
    assert_eq!(resolver.conflict_history[0].resolution_time, 30 * 60_000);
}

#[test]
fn test_reassignment_without_slack() {
    let mut resolver = ConflictResolver::new(schedule(vec![conflict("r1", &["a"], ConflictSeverity::Medium)]));
    let report = resolver.resolve_all_conflicts_at(0).unwrap();
    let r = &report.successful_resolutions[0];
    assert_eq!(r.method, ResolutionMethod::ResourceReassignment);
    assert_eq!(r.description, "Reassigned task a from r1 to r1-alt");
    assert_eq!(r.new_resource, Some("r1-alt".to_string()));
    assert_eq!(
        resolver.schedule.resource_assignments,
        vec![
            ("r1".to_string(), vec!["b".to_string()]),
            ("r1-alt".to_string(), vec!["a".to_string()]),
        ]
    );
}

#[test]
fn test_conflict_without_tasks_adjusts_dependencies() {
    let mut resolver = ConflictResolver::new(schedule(vec![conflict("r1", &[], ConflictSeverity::Low)]));
    let report = resolver.resolve_all_conflicts_at(0).unwrap();
    let r = &report.successful_resolutions[0];
    assert_eq!(r.method, ResolutionMethod::DependencyAdjustment);
    assert_eq!(r.description, "Adjusted 0 dependencies");
}

#[test]
fn test_most_severe_first() {
    let mut resolver = ConflictResolver::new(schedule(vec![
        conflict("r1", &[], ConflictSeverity::Low),
        conflict("r1", &["a"], ConflictSeverity::Critical),
    ]));
    let report = resolver.resolve_all_conflicts_at(0).unwrap();
    assert_eq!(report.successful_resolutions[0].method, ResolutionMethod::ResourceReassignment);
    assert_eq!(report.successful_resolutions[1].method, ResolutionMethod::DependencyAdjustment);
    assert_eq!(resolver.conflict_history[0].conflict.severity, ConflictSeverity::Critical);
}

#[test]
fn test_other_strategies() {
    let mut resolver = ConflictResolver::new(schedule(vec![conflict("r1", &["a", "x"], ConflictSeverity::Low)]));
    resolver.resolution_strategies = vec![ResolutionStrategy::TaskBreakdown];
    let report = resolver.resolve_all_conflicts_at(0).unwrap();
    let r = &report.successful_resolutions[0];
    assert_eq!(r.description, "Broke down task a into 2 subtasks");
    assert_eq!(r.subtasks, Some(vec!["a-subtask-1".to_string(), "a-subtask-2".to_string()]));

    let mut resolver = ConflictResolver::new(schedule(vec![conflict("r1", &["a"], ConflictSeverity::Low)]));
    resolver.resolution_strategies = vec![ResolutionStrategy::ProjectRestructuring];
    let report = resolver.resolve_all_conflicts_at(0).unwrap();
    assert_eq!(report.successful_resolutions[0].project_delay, Some(DAY_MILLIS));
    assert_eq!(
        report.successful_resolutions[0].description,
        "Restructured project to resolve critical conflict"
    );
}

#[test]
fn test_unresolved_conflict_is_reported() {
    let mut resolver = ConflictResolver::new(schedule(vec![conflict("r1", &["x"], ConflictSeverity::Low)]));
    resolver.resolution_strategies = vec![ResolutionStrategy::TimeShifting, ResolutionStrategy::TaskBreakdown];
    let report = resolver.resolve_all_conflicts_at(0).unwrap();
    assert_eq!(report.failed_conflicts, 1);
    assert_eq!(report.resolved_conflicts, 0);
    let f = &report.failed_resolutions[0];
    assert_eq!(f.error, "Validation error on 'conflict_resolution': No strategy could resolve this conflict");
    assert_eq!(
        f.attempted_strategies,
        vec![ResolutionStrategy::TimeShifting, ResolutionStrategy::ResourceReassignment]
    );
    assert!(resolver.conflict_history.is_empty());
}

#[test]
fn test_resolve_now() {
    let mut resolver = ConflictResolver::new(schedule(vec![conflict("r1", &[], ConflictSeverity::Low)]));
    let report = resolver.resolve_all_conflicts().unwrap();
    assert_eq!(report.resolved_conflicts, 1);
}
