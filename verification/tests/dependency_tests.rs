use project_domain::dates::Date;
use project_domain::errors::DomainError;
use project_domain::project_management::advanced_dependencies::{
    AdvancedDependency, AdvancedDependencyGraph, DependencyType, LagType, TaskNode,
};
use project_domain::project_management::dependency_calculation_engine::{
    CalculationConfig, DependencyCalculationEngine, TaskCalculationStatus,
};

fn day(y: i32, m: u32, d: u32) -> Date {
    Date::from_ymd_opt(y, m, d).unwrap()
}

fn dep(p: &str, s: &str, t: DependencyType) -> AdvancedDependency {
    AdvancedDependency::new(p.to_string(), s.to_string(), t, LagType::zero(), "user1".to_string(), None)
}

fn two_task_graph() -> AdvancedDependencyGraph {
    let mut graph = AdvancedDependencyGraph::new();
    graph.add_task(TaskNode::new("task1".to_string(), "Task 1".to_string(), None, None, Some(5)));
    graph.add_task(TaskNode::new("task2".to_string(), "Task 2".to_string(), None, None, Some(3)));
    graph.add_dependency(dep("task1", "task2", DependencyType::FinishToStart)).unwrap();
    graph
}

fn config(start: Date) -> CalculationConfig {
    CalculationConfig {
        project_start_date: start,
        default_task_duration: 1,
        working_days_only: false,
        working_hours_per_day: 8,
        cache_enabled: true,
    }
}

#[test]
fn test_dependency_type_descriptions() {
    assert_eq!(DependencyType::FinishToStart.description(), "Finish to Start");
    assert_eq!(DependencyType::StartToStart.description(), "Start to Start");
    assert_eq!(DependencyType::FinishToFinish.description(), "Finish to Finish");
    assert_eq!(DependencyType::StartToFinish.description(), "Start to Finish");
}

#[test]
fn test_dependency_type_symbols() {
    assert_eq!(DependencyType::FinishToStart.symbol(), "FS");
    assert_eq!(DependencyType::StartToStart.symbol(), "SS");
    assert_eq!(DependencyType::FinishToFinish.symbol(), "FF");
    assert_eq!(DependencyType::StartToFinish.symbol(), "SF");
}

#[test]
fn test_task_calculation_status_variants() {
    let ready_status = TaskCalculationStatus::Ready;
    let waiting_status = TaskCalculationStatus::Waiting;
    let calculated_status = TaskCalculationStatus::Calculated;
    let error_status = TaskCalculationStatus::Error("Test error".to_string());

    assert_eq!(ready_status, TaskCalculationStatus::Ready);
    assert_eq!(waiting_status, TaskCalculationStatus::Waiting);
    assert_eq!(calculated_status, TaskCalculationStatus::Calculated);
    assert!(matches!(error_status, TaskCalculationStatus::Error(_)));
}

#[test]
fn lag_moves_dates_by_whole_days() {
    let base = day(2024, 1, 10);
    assert_eq!(LagType::positive_days(5).apply_to_date(base).unwrap(), day(2024, 1, 15));
    assert_eq!(LagType::negative_days(2).apply_to_date(base).unwrap(), day(2024, 1, 8));
    assert_eq!(LagType::zero().apply_to_date(base).unwrap(), base);
}

#[test]
fn dates_render_as_iso_text() {
    assert_eq!(day(2024, 3, 9).to_iso_string(), "2024-03-09");
    assert!(Date::from_ymd_opt(2024, 2, 30).is_none());
    assert_eq!(day(2024, 3, 1).days_since(&day(2024, 2, 1)), 29);
}

#[test]
fn adding_a_dependency_records_it_on_both_tasks() {
    let graph = two_task_graph();
    assert!(graph.has_dependency("task1", "task2"));
    assert!(!graph.has_dependency("task2", "task1"));
    assert_eq!(graph.get_dependencies("task1").len(), 1);
    assert_eq!(graph.get_dependents("task2").len(), 1);
    assert!(graph.is_predecessor("task1", "task2"));
    assert!(!graph.is_predecessor("task2", "task1"));
}

#[test]
fn a_dependency_that_closes_a_cycle_is_refused() {
    let mut graph = two_task_graph();
    let r = graph.add_dependency(dep("task2", "task1", DependencyType::FinishToStart));
    assert!(matches!(r, Err(DomainError::ValidationError { .. })));
    assert!(!graph.has_dependency("task2", "task1"));
    assert!(graph.validate().is_ok());
}

#[test]
fn duplicate_and_dangling_dependencies_are_refused() {
    let mut graph = two_task_graph();
    let dup = graph.add_dependency(dep("task1", "task2", DependencyType::FinishToStart));
    match dup {
        Err(DomainError::ValidationError { field, message }) => {
            assert_eq!(field, "dependency");
            assert_eq!(message, "Dependency already exists");
        }
        _ => panic!("expected a validation error"),
    }
    let missing = graph.add_dependency(dep("task1", "ghost", DependencyType::FinishToStart));
    match missing {
        Err(DomainError::ValidationError { field, .. }) => assert_eq!(field, "successor_id"),
        _ => panic!("expected a validation error"),
    }
}

#[test]
fn removing_a_dependency_undoes_adding_it() {
    let mut graph = two_task_graph();
    graph.remove_dependency("task1", "task2").unwrap();
    assert!(!graph.has_dependency("task1", "task2"));
    assert!(!graph.is_predecessor("task1", "task2"));
    assert!(graph.add_dependency(dep("task2", "task1", DependencyType::FinishToStart)).is_ok());
}

#[test]
fn topological_sort_puts_predecessors_first() {
    let mut graph = two_task_graph();
    graph.add_task(TaskNode::new("task3".to_string(), "Task 3".to_string(), None, None, Some(2)));
    graph.add_dependency(dep("task2", "task3", DependencyType::FinishToStart)).unwrap();
    let engine = DependencyCalculationEngine::new(config(day(2024, 1, 1)));
    let order = engine.topological_sort(&graph).unwrap();
    assert_eq!(order, vec!["task1".to_string(), "task2".to_string(), "task3".to_string()]);
}

#[test]
fn finish_to_start_chain_dates_and_floats() {
    let graph = two_task_graph();
    let mut engine = DependencyCalculationEngine::new(config(day(2024, 1, 1)));
    let results = engine.calculate_project_dates(&graph).unwrap();
    assert_eq!(results.len(), 2);
    let first = results.iter().find(|r| r.task_id == "task1").unwrap();
    let second = results.iter().find(|r| r.task_id == "task2").unwrap();
    assert_eq!(first.calculated_start_date, Some(day(2024, 1, 1)));
    assert_eq!(first.calculated_end_date, Some(day(2024, 1, 6)));
    assert_eq!(second.calculated_start_date, Some(day(2024, 1, 6)));
    assert_eq!(second.calculated_end_date, Some(day(2024, 1, 9)));
    assert_eq!(first.total_float, Some(0));
    assert!(first.is_critical);
    assert!(second.is_critical);
}

#[test]
fn affected_tasks_follow_the_chains() {
    let mut graph = two_task_graph();
    graph.add_task(TaskNode::new("lone".to_string(), "Lone".to_string(), None, None, Some(1)));
    let engine = DependencyCalculationEngine::new(config(day(2024, 1, 1)));
    let affected = engine.find_affected_tasks("task1", &graph);
    assert!(affected.contains(&"task1".to_string()));
    assert!(affected.contains(&"task2".to_string()));
    assert!(!affected.contains(&"lone".to_string()));
    assert_eq!(engine.find_affected_tasks("task2", &graph), vec!["task2".to_string()]);
}

#[test]
fn task_duration_comes_from_dates_when_both_exist() {
    let t = TaskNode::new("t".to_string(), "T".to_string(), Some(day(2024, 1, 1)), Some(day(2024, 1, 11)), Some(3));
    assert_eq!(t.calculate_duration(), Some(10));
    let u = TaskNode::new("u".to_string(), "U".to_string(), None, None, Some(3));
    assert_eq!(u.calculate_duration(), Some(3));
}
