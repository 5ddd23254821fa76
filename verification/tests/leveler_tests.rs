use project_domain::scheduling::resource_leveler::{
    ConflictResolution, ResolutionMethod, ResourceLeveler, ResourceLevelingResult, HOUR_MILLIS,
};
use project_domain::scheduling::scheduler::{
    ConflictSeverity, ProjectSchedule, ResourceConflict, ScheduledTask, TimeRange, DAY_MILLIS,
};

fn task(id: &str, es_days: i64, ls_days: i64) -> ScheduledTask {
    ScheduledTask::new(id.to_string(), es_days * DAY_MILLIS, ls_days * DAY_MILLIS, DAY_MILLIS)
}

fn conflict(tasks: &[&str], severity: ConflictSeverity) -> ResourceConflict {
    ResourceConflict {
        resource_id: "r1".to_string(),
        conflicting_tasks: tasks.iter().map(|s| s.to_string()).collect(),
        conflict_period: TimeRange { start: 0, end: DAY_MILLIS },
        severity,
        suggested_resolution: None,
    }
}

fn schedule(conflicts: Vec<ResourceConflict>) -> ProjectSchedule {
    let mut s = ProjectSchedule::new("P".to_string(), 0);
    s.tasks = vec![task("a", 0, 0), task("b", 0, 3), task("c", 1, 1)];
    s.end_date = 2 * DAY_MILLIS;
    s.total_duration = 2 * DAY_MILLIS;
    s.conflicts = conflicts;
    s
}

#[test]
fn resource_leveler_test_conflict_resolution_creation() {
    let resolution = ConflictResolution::new("resource-1".to_string());
    assert_eq!(resolution.resource_id, "resource-1");
    assert_eq!(resolution.method, ResolutionMethod::Unknown);
    assert_eq!(resolution.delay, 0);
}

#[test]
fn test_leveling_result_creation() {
    let r = ResourceLevelingResult::new();
    assert!(!r.success);
    assert_eq!(r.conflicts_resolved, 0);
    assert_eq!(r.total_delay, 0);
    assert_eq!(ResourceLevelingResult::default(), r);
}

#[test]
fn test_low_severity_shifts_first_task() {
    let mut leveler = ResourceLeveler::new(schedule(vec![conflict(&["c", "a"], ConflictSeverity::Low)]));
    let r = leveler.level_resources_at(0).unwrap();
    assert!(r.success);
    assert_eq!(r.conflicts_resolved, 1);
    assert_eq!(r.total_delay, HOUR_MILLIS);
    assert_eq!(r.resolutions[0].method, ResolutionMethod::MinorShift);
    assert_eq!(r.resolutions[0].description, "Minor time shift to resolve low-severity conflict");
    let c = leveler.schedule.get_task("c").unwrap();
    assert_eq!(c.early_start, DAY_MILLIS + HOUR_MILLIS);
    assert_eq!(c.late_finish, 2 * DAY_MILLIS + HOUR_MILLIS);
}

#[test]
fn test_medium_severity_reschedules_least_constrained_task() {
    let now = 10 * DAY_MILLIS;
    let mut leveler = ResourceLeveler::new(schedule(vec![conflict(&["a", "b"], ConflictSeverity::Medium)]));
    let r = leveler.level_resources_at(now).unwrap();
    // "a" is critical (score 1000); "b" has three days of slack (score 3) and moves.
    assert_eq!(r.resolutions[0].method, ResolutionMethod::Reschedule);
    assert_eq!(r.resolutions[0].description, "Rescheduled task b to resolve conflict");
    assert_eq!(r.resolutions[0].delay, now);
    let b = leveler.schedule.get_task("b").unwrap();
    assert_eq!(b.early_start, now);
    assert_eq!(b.early_finish, now + DAY_MILLIS);
    assert_eq!(b.late_start, 3 * DAY_MILLIS + now);
}

#[test]
fn test_reschedule_after_resource_tasks() {
    let mut s = schedule(vec![conflict(&["b"], ConflictSeverity::High)]);
    s.resource_assignments = vec![("r1".to_string(), vec!["c".to_string(), "a".to_string()])];
    let mut leveler = ResourceLeveler::new(s);
    let r = leveler.level_resources_at(0).unwrap();
    assert_eq!(r.total_delay, 2 * DAY_MILLIS + HOUR_MILLIS);
    assert_eq!(leveler.schedule.get_task("b").unwrap().early_start, 2 * DAY_MILLIS + HOUR_MILLIS);
}

#[test]
fn test_critical_severity_delays_project() {
    let mut leveler = ResourceLeveler::new(schedule(vec![conflict(&["a"], ConflictSeverity::Critical)]));
    let r = leveler.level_resources_at(0).unwrap();
    assert_eq!(r.resolutions[0].method, ResolutionMethod::ProjectDelay);
    assert_eq!(r.total_delay, DAY_MILLIS);
    assert_eq!(leveler.schedule.start_date, DAY_MILLIS);
    assert_eq!(leveler.schedule.end_date, 3 * DAY_MILLIS);
    assert!(leveler.schedule.tasks.iter().all(|t| t.early_start >= DAY_MILLIS));
}

#[test]
fn test_unknown_tasks_fail_to_reschedule() {
    let mut leveler = ResourceLeveler::new(schedule(vec![
        conflict(&["x"], ConflictSeverity::Medium),
        conflict(&[], ConflictSeverity::Low),
    ]));
    let r = leveler.level_resources_at(0).unwrap();
    assert!(!r.success);
    assert_eq!(r.conflicts_resolved, 1);
    assert_eq!(r.failed_resolutions.len(), 1);
    assert_eq!(
        r.failed_resolutions[0].error,
        "Validation error on 'conflict_resolution': No suitable task found for rescheduling"
    );
    assert_eq!(r.resolutions[0].method, ResolutionMethod::Unknown);
}

#[test]
fn test_leveling_now() {
    let mut leveler = ResourceLeveler::new(schedule(vec![conflict(&["a"], ConflictSeverity::Low)]));
    let r = leveler.level_resources().unwrap();
    assert!(r.success);
    assert_eq!(ResolutionMethod::ProjectDelay.to_string(), "Delay Project");
}
