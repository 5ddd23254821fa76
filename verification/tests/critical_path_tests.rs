use project_domain::scheduling::critical_path::{
    CriticalPathCalculator, DelayImpact, OptimizationSuggestion, RiskLevel,
};
use project_domain::scheduling::scheduler::{
    ConflictSeverity, ProjectSchedule, ResourceConflict, ScheduledTask, TimeRange,
};

const DAY: i64 = 86_400_000;

fn now_millis() -> i64 {
    chrono::Utc::now().timestamp_millis()
}

fn create_test_schedule() -> ProjectSchedule {
    let start = now_millis();
    let mut schedule = ProjectSchedule::new("TEST-PROJ".to_string(), start);

    let mut task1 = ScheduledTask::new("task-1".to_string(), start, start + DAY, 2 * DAY);
    let mut task2 = ScheduledTask::new("task-2".to_string(), start + 2 * DAY, start + 3 * DAY, DAY);

    task1.is_critical = true;
    task2.is_critical = true;

    task2.total_slack = 10 * DAY;

    schedule.tasks = vec![task1, task2];
    schedule.critical_path = vec!["task-1".to_string(), "task-2".to_string()];
    schedule.total_duration = 3 * DAY;

    schedule
}

#[test]
fn test_critical_path_calculator_creation() {
    let schedule = create_test_schedule();
    let calculator = CriticalPathCalculator::new(schedule);
    assert_eq!(calculator.schedule.project_id, "TEST-PROJ");
}

#[test]
fn test_critical_path_analysis() {
    let schedule = create_test_schedule();
    let calculator = CriticalPathCalculator::new(schedule);
    let analysis = calculator.calculate_critical_path().unwrap();

    assert_eq!(analysis.critical_path.len(), 2);
    assert_eq!(analysis.project_duration, 3 * DAY);
}

#[test]
fn test_delay_impact_calculation() {
    let schedule = create_test_schedule();
    let calculator = CriticalPathCalculator::new(schedule);
    let impact = calculator.calculate_delay_impact("task-1", 1);

    match impact {
        DelayImpact::CriticalTaskDelay { project_delay_days, .. } => {
            assert_eq!(project_delay_days, 1);
        }
        _ => panic!("Expected CriticalTaskDelay"),
    }
}

#[test]
fn test_optimization_suggestions() {
    let schedule = create_test_schedule();
    let calculator = CriticalPathCalculator::new(schedule);
    let suggestions = calculator.suggest_optimizations();

    assert!(!suggestions.is_empty());
}

#[test]
fn test_risk_analysis() {
    let schedule = create_test_schedule();
    let calculator = CriticalPathCalculator::new(schedule);
    let risk_analysis = calculator.analyze_risk_factors();

    let critical_task_percentage = if risk_analysis.total_tasks > 0 {
        risk_analysis.critical_tasks as f64 / risk_analysis.total_tasks as f64 * 100.0
    } else {
        0.0
    };
    assert!(critical_task_percentage >= 0.0);
    assert!(critical_task_percentage <= 100.0);
}

#[test]
fn test_risk_level_calculation() {
    let schedule = create_test_schedule();
    let calculator = CriticalPathCalculator::new(schedule);
    let risk_analysis = calculator.analyze_risk_factors();

    match risk_analysis.overall_risk_level {
        RiskLevel::Low | RiskLevel::Medium | RiskLevel::High => {}
    }
}

#[test]
fn test_scheduled_task_creation() {
    let start = now_millis();
    let duration = 2 * DAY;

    let task = ScheduledTask::new("task-1".to_string(), start, start + DAY, duration);

    assert_eq!(task.task_id, "task-1");
    assert_eq!(task.early_start, start);
    assert_eq!(task.early_finish, start + duration);
    assert_eq!(task.duration, duration);
}

#[test]
fn test_project_schedule_creation() {
    let start = now_millis();
    let schedule = ProjectSchedule::new("PROJ-1".to_string(), start);

    assert_eq!(schedule.project_id, "PROJ-1");
    assert_eq!(schedule.start_date, start);
    assert!(schedule.tasks.is_empty());
    assert!(schedule.critical_path.is_empty());
}

fn task(id: &str, es: i64, ls: i64, d: i64) -> ScheduledTask {
    ScheduledTask::new(id.to_string(), es * DAY, ls * DAY, d * DAY)
}

#[test]
fn test_scheduled_task_slack_and_criticality() {
    let t = task("a", 0, 0, 3);
    assert!(t.is_critical);
    assert_eq!(t.total_slack, 0);
    assert_eq!(t.late_finish, 3 * DAY);
    let u = task("b", 0, 2, 3);
    assert!(!u.is_critical);
    assert_eq!(u.total_slack, 2 * DAY);
}

#[test]
fn test_free_slack() {
    let mut t = task("a", 0, 4, 2);
    t.calculate_free_slack(&[]);
    assert_eq!(t.free_slack, 4 * DAY);
    let s1 = task("b", 5, 5, 1);
    let s2 = task("c", 3, 6, 1);
    t.calculate_free_slack(&[&s1, &s2]);
    assert_eq!(t.free_slack, DAY);
    let early = task("d", 1, 1, 1);
    t.calculate_free_slack(&[&early]);
    assert_eq!(t.free_slack, 0);
}

fn sample_schedule() -> ProjectSchedule {
    let mut s = ProjectSchedule::new("P".to_string(), 0);
    s.tasks = vec![
        task("a", 0, 0, 2),
        task("b", 2, 2, 3),
        task("c", 0, 8, 1),
        task("d", 5, 5, 2),
        task("e", 1, 11, 1),
    ];
    s.total_duration = 7 * DAY;
    s.resource_assignments = vec![("r1".to_string(), vec!["c".to_string(), "x".to_string(), "a".to_string()])];
    s.conflicts = vec![
        ResourceConflict {
            resource_id: "r1".to_string(),
            conflicting_tasks: vec!["c".to_string(), "a".to_string()],
            conflict_period: TimeRange { start: 0, end: DAY },
            severity: ConflictSeverity::High,
            suggested_resolution: None,
        },
        ResourceConflict {
            resource_id: "r2".to_string(),
            conflicting_tasks: vec!["c".to_string(), "e".to_string()],
            conflict_period: TimeRange { start: DAY, end: 2 * DAY },
            severity: ConflictSeverity::Low,
            suggested_resolution: None,
        },
    ];
    s
}

#[test]
fn test_schedule_queries() {
    let s = sample_schedule();
    assert_eq!(s.get_task("d").unwrap().early_start, 5 * DAY);
    assert!(s.get_task("x").is_none());
    let critical: Vec<&str> = s.get_critical_tasks().iter().map(|t| t.task_id.as_str()).collect();
    assert_eq!(critical, vec!["a", "b", "d"]);
    let by_resource: Vec<&str> = s.get_tasks_by_resource("r1").iter().map(|t| t.task_id.as_str()).collect();
    assert_eq!(by_resource, vec!["c", "a"]);
    assert!(s.get_tasks_by_resource("r9").is_empty());
}

#[test]
fn test_critical_path_follows_the_chain() {
    let calculator = CriticalPathCalculator::new(sample_schedule());
    let analysis = calculator.calculate_critical_path().unwrap();
    assert_eq!(analysis.critical_path, vec!["a".to_string(), "b".to_string(), "d".to_string()]);
    assert_eq!(analysis.critical_tasks, vec!["a".to_string(), "b".to_string(), "d".to_string()]);
    assert_eq!(analysis.critical_path_duration, 7 * DAY);
    assert_eq!(analysis.project_duration, 7 * DAY);

    let total = &analysis.total_slack_analysis;
    assert_eq!(total.total_tasks, 5);
    assert_eq!(total.critical_tasks, 3);
    assert_eq!(total.average_slack_millis, 18 * DAY / 5);
    let mut distribution = total.distribution.clone();
    distribution.sort();
    assert_eq!(distribution, vec![(0, 3), (8, 1), (10, 1)]);

    let free = &analysis.free_slack_analysis;
    assert_eq!(free.distribution, vec![(0, 5)]);
    assert_eq!(free.average_slack_millis, 0);
}

#[test]
fn test_critical_path_without_critical_tasks() {
    let mut s = ProjectSchedule::new("P".to_string(), 0);
    s.tasks = vec![task("a", 0, 1, 1)];
    let analysis = CriticalPathCalculator::new(s).calculate_critical_path().unwrap();
    assert!(analysis.critical_path.is_empty());
    assert_eq!(analysis.critical_path_duration, 0);
}

#[test]
fn test_delay_impacts() {
    let calculator = CriticalPathCalculator::new(sample_schedule());
    assert_eq!(calculator.calculate_delay_impact("zz", 3), DelayImpact::TaskNotFound);
    assert_eq!(calculator.calculate_delay_impact("c", 8), DelayImpact::NoImpact);
    assert_eq!(
        calculator.calculate_delay_impact("c", 11),
        DelayImpact::NonCriticalDelay { excess_delay_days: 3, affected_tasks: vec![] }
    );
}

#[test]
fn test_slack_filters_and_suggestions() {
    let calculator = CriticalPathCalculator::new(sample_schedule());
    let non_critical: Vec<&str> = calculator.get_non_critical_tasks().iter().map(|t| t.task_id.as_str()).collect();
    assert_eq!(non_critical, vec!["c", "e"]);
    let high: Vec<&str> = calculator.get_high_slack_tasks(9).iter().map(|t| t.task_id.as_str()).collect();
    assert_eq!(high, vec!["e"]);
    assert_eq!(
        calculator.suggest_optimizations(),
        vec![
            OptimizationSuggestion::DelayNonCriticalTasks { task_count: 2, potential_savings_days: 10 },
            OptimizationSuggestion::ResolveCriticalConflicts { conflict_count: 1 },
        ]
    );
}

#[test]
fn test_risk_factors() {
    let calculator = CriticalPathCalculator::new(sample_schedule());
    let risk = calculator.analyze_risk_factors();
    assert_eq!(risk.critical_tasks, 3);
    assert_eq!(risk.total_tasks, 5);
    assert_eq!(risk.high_risk_tasks, 3);
    assert_eq!(risk.resource_conflicts, 1);
    // 60 % critical scores 1, three tight tasks score 1, one conflict scores 0.
    assert_eq!(risk.overall_risk_level, RiskLevel::Low);

    let mut all_critical = sample_schedule();
    for t in all_critical.tasks.iter_mut() {
        t.is_critical = true;
        t.total_slack = 0;
    }
    for id in ["z0", "z1", "z2", "z3", "z4", "z5"] {
        all_critical.tasks.push(task(id, 20, 20, 1));
    }
    let risk = CriticalPathCalculator::new(all_critical).analyze_risk_factors();
    assert_eq!(risk.high_risk_tasks, 11);
    assert_eq!(risk.overall_risk_level, RiskLevel::High);
}

#[test]
fn test_suggestion_text() {
    let a = OptimizationSuggestion::DelayNonCriticalTasks { task_count: 2, potential_savings_days: 10 };
    assert_eq!(a.to_string(), "Delay 2 non-critical tasks to save up to 10 days");
    let b = OptimizationSuggestion::ResolveCriticalConflicts { conflict_count: 1 };
    assert_eq!(b.to_string(), "Resolve 1 conflicts on critical path");
    let c = OptimizationSuggestion::ParallelizeTasks { opportunity_count: 3 };
    assert_eq!(c.to_string(), "Parallelize 3 task groups to reduce duration");
}
