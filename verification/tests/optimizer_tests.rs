use project_domain::scheduling::schedule_optimizer::{can_parallelize, find_compressible_tasks};
use project_domain::scheduling::scheduler::{ProjectSchedule, ScheduledTask, DAY_MILLIS};

const START: i64 = 1_704_067_200_000; // 2024-01-01T00:00:00Z

fn task(id: &str, es_days: i64, ls_days: i64, dur_days: i64) -> ScheduledTask {
    ScheduledTask::new(
        id.to_string(),
        START + es_days * DAY_MILLIS,
        START + ls_days * DAY_MILLIS,
        dur_days * DAY_MILLIS,
    )
}

#[test]
fn test_overlapping_windows_can_run_in_parallel() {
    let a = task("A", 0, 0, 3);
    let b = task("B", 2, 2, 3);
    assert!(can_parallelize(&a, &b));
    assert!(can_parallelize(&b, &a));
}

#[test]
fn test_adjacent_windows_cannot_run_in_parallel() {
    let a = task("A", 0, 0, 2);
    let b = task("B", 2, 2, 3);
    assert!(!can_parallelize(&a, &b));
    assert!(!can_parallelize(&b, &a));
}

#[test]
fn test_compressible_tasks_have_more_than_a_day_of_slack() {
    let mut schedule = ProjectSchedule::new("P".to_string(), START);
    schedule.tasks.push(task("A", 0, 0, 2));
    schedule.tasks.push(task("B", 0, 1, 1));
    schedule.tasks.push(task("C", 0, 3, 1));
    schedule.tasks.push(task("D", 1, 6, 1));
    assert_eq!(find_compressible_tasks(&schedule), vec!["C".to_string(), "D".to_string()]);
}

#[test]
fn test_no_compressible_tasks_in_an_empty_schedule() {
    let schedule = ProjectSchedule::new("P".to_string(), START);
    assert!(find_compressible_tasks(&schedule).is_empty());
}
