use project_domain::errors::DomainError;
use project_domain::scheduling::scheduler::{Scheduler, TaskDependency, DAY_MILLIS};

const START: i64 = 1_704_067_200_000; // 2024-01-01T00:00:00Z

fn ids(list: &[&str]) -> Vec<String> {
    list.iter().map(|s| s.to_string()).collect()
}

fn dep(p: &str, s: &str) -> TaskDependency {
    TaskDependency { predecessor: p.to_string(), successor: s.to_string() }
}

#[test]
fn test_scheduler_creation() {
    let scheduler = Scheduler::new("TEST-PROJ".to_string(), vec![], vec![]);
    assert_eq!(scheduler.project_code, "TEST-PROJ");
}

#[test]
fn test_schedule_of_a_chain() {
    let scheduler = Scheduler::new(
        "P".to_string(),
        ids(&["A", "B", "C"]),
        vec![dep("A", "B"), dep("B", "C")],
    );
    let s = scheduler.create_schedule(START).unwrap();
    assert_eq!(s.project_id, "P");
    let starts: Vec<i64> = s.tasks.iter().map(|t| (t.early_start - START) / DAY_MILLIS).collect();
    assert_eq!(starts, vec![0, 1, 2]);
    let late: Vec<i64> = s.tasks.iter().map(|t| (t.late_start - START) / DAY_MILLIS).collect();
    assert_eq!(late, vec![0, 1, 2]);
    assert!(s.tasks.iter().all(|t| t.is_critical && t.total_slack == 0 && t.free_slack == 0));
    assert_eq!(s.critical_path, ids(&["A", "B", "C"]));
    assert_eq!(s.total_duration, 3 * DAY_MILLIS);
    assert_eq!(s.start_date, START);
    assert_eq!(s.end_date, START + 3 * DAY_MILLIS);
    assert!(s.resource_assignments.is_empty());
    assert!(s.conflicts.is_empty());
}

#[test]
fn test_schedule_with_a_free_task() {
    let scheduler = Scheduler::new(
        "P".to_string(),
        ids(&["A", "B", "C", "D"]),
        vec![dep("A", "B"), dep("B", "C")],
    );
    let s = scheduler.create_schedule(START).unwrap();
    let d = s.get_task("D").unwrap();
    assert_eq!(d.early_start, START);
    assert_eq!(d.late_start, START + 2 * DAY_MILLIS);
    assert_eq!(d.total_slack, 2 * DAY_MILLIS);
    assert_eq!(d.free_slack, 2 * DAY_MILLIS);
    assert!(!d.is_critical);
    assert_eq!(s.critical_path, ids(&["A", "B", "C"]));
    assert_eq!(s.total_duration, 3 * DAY_MILLIS);
}

#[test]
fn test_schedule_with_a_join() {
    let scheduler = Scheduler::new(
        "P".to_string(),
        ids(&["A", "B", "C"]),
        vec![dep("A", "C"), dep("B", "C")],
    );
    let s = scheduler.create_schedule(START).unwrap();
    assert_eq!(s.get_task("C").unwrap().early_start, START + DAY_MILLIS);
    assert_eq!(s.critical_path, ids(&["A", "C"]));
    assert_eq!(s.total_duration, 2 * DAY_MILLIS);
}

#[test]
fn test_schedule_with_an_unknown_task() {
    let scheduler = Scheduler::new("P".to_string(), ids(&["A"]), vec![dep("A", "X")]);
    match scheduler.create_schedule(START) {
        Err(DomainError::EntityNotFound { entity_type, identifier }) => {
            assert_eq!(entity_type, "Task");
            assert_eq!(identifier, "X");
        }
        other => panic!("unexpected {:?}", other),
    }
    let e = scheduler.create_schedule(START).unwrap_err();
    assert_eq!(e.to_text(), "Task not found: X");
}

#[test]
fn test_schedule_without_tasks() {
    let scheduler = Scheduler::new("P".to_string(), vec![], vec![]);
    let s = scheduler.create_schedule(START).unwrap();
    assert!(s.tasks.is_empty());
    assert!(s.critical_path.is_empty());
    assert_eq!(s.end_date, START + s.total_duration);
}

#[test]
fn test_schedule_keeps_duplicate_identifiers() {
    let scheduler = Scheduler::new("P".to_string(), ids(&["A", "A", "B"]), vec![dep("A", "B")]);
    let s = scheduler.create_schedule(START).unwrap();
    assert_eq!(s.tasks.len(), 3);
    assert_eq!(s.tasks[2].early_start, START + DAY_MILLIS);
    assert_eq!(s.tasks[1].early_start, START);
}
