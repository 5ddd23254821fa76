use project_domain::dates::Date;
use project_domain::project_management::advanced_dependencies::{
    AdvancedDependency, AdvancedDependencyGraph, DependencyType, LagType, TaskNode,
};
use project_domain::project_management::conflict_validation_system::{
    ConflictSeverity, ConflictType, ConflictValidationSystem, ValidationConfig, ValidationStatus,
};
use project_domain::project_management::dependency_calculation_engine::CalculationResult;

fn day(y: i32, m: u32, d: u32) -> Date {
    Date::from_ymd_opt(y, m, d).unwrap()
}

fn result(id: &str, start: Option<Date>, end: Option<Date>, satisfied: bool, order: usize) -> CalculationResult {
    CalculationResult {
        task_id: id.to_string(),
        calculated_start_date: start,
        calculated_end_date: end,
        is_critical: false,
        total_float: None,
        free_float: None,
        dependencies_satisfied: satisfied,
        calculation_order: order,
    }
}

fn dep(p: &str, s: &str) -> AdvancedDependency {
    AdvancedDependency::new(p.to_string(), s.to_string(), DependencyType::FinishToStart, LagType::zero(), "user1".to_string(), None)
}

fn two_task_graph() -> AdvancedDependencyGraph {
    let mut graph = AdvancedDependencyGraph::new();
    graph.add_task(TaskNode::new("task1".to_string(), "Task 1".to_string(), None, None, Some(5)));
    graph.add_task(TaskNode::new("task2".to_string(), "Task 2".to_string(), None, None, Some(3)));
    graph.add_dependency(dep("task1", "task2")).unwrap();
    graph
}

#[test]
fn test_validation_config_default() {
    let config = ValidationConfig::default();
    assert!(config.circular_dependency_check);
    assert!(config.date_overlap_check);
    assert!(config.resource_conflict_check);
    assert!(config.resource_capacity_check);
    assert!(config.time_constraint_check);
    assert_eq!(config.date_tolerance_days, 0);
    assert_eq!(config.max_resource_capacity, 100);
}

#[test]
fn test_validation_config_custom() {
    let config = ValidationConfig {
        circular_dependency_check: false,
        date_overlap_check: true,
        resource_conflict_check: false,
        resource_capacity_check: true,
        time_constraint_check: false,
        date_tolerance_days: 5,
        max_resource_capacity: 50,
    };

    assert!(!config.circular_dependency_check);
    assert!(config.date_overlap_check);
    assert!(!config.resource_conflict_check);
    assert!(config.resource_capacity_check);
    assert!(!config.time_constraint_check);
    assert_eq!(config.date_tolerance_days, 5);
    assert_eq!(config.max_resource_capacity, 50);
}

#[test]
fn test_conflict_severity_variants() {
    assert_eq!(ConflictSeverity::Critical, ConflictSeverity::Critical);
    assert_eq!(ConflictSeverity::Warning, ConflictSeverity::Warning);
    assert_eq!(ConflictSeverity::Info, ConflictSeverity::Info);
}

#[test]
fn a_graph_without_results_is_valid() {
    let mut system = ConflictValidationSystem::with_default_config();
    let graph = two_task_graph();
    let status = system.validate_graph(&graph, &Vec::new());
    assert_eq!(status, ValidationStatus::Valid);
    assert_eq!(system.get_conflict_history().len(), 0);
}

#[test]
fn overlapping_dates_are_reported_once_per_pair() {
    let mut system = ConflictValidationSystem::with_default_config();
    let results = vec![
        result("task1", Some(day(2024, 1, 1)), Some(day(2024, 1, 10)), true, 0),
        result("task2", Some(day(2024, 1, 5)), Some(day(2024, 1, 15)), true, 1),
        result("task3", Some(day(2024, 2, 1)), Some(day(2024, 2, 2)), true, 2),
    ];
    let graph = AdvancedDependencyGraph::new();
    match system.validate_graph(&graph, &results) {
        ValidationStatus::Invalid(conflicts) => {
            assert_eq!(conflicts.len(), 1);
            let c = &conflicts[0];
            assert_eq!(c.severity, ConflictSeverity::Warning);
            assert_eq!(
                c.message,
                "Date overlap between tasks task1 and task2: 2024-01-01 - 2024-01-10 overlaps with 2024-01-05 - 2024-01-15"
            );
            assert_eq!(c.affected_tasks, vec!["task1".to_string(), "task2".to_string()]);
            assert_eq!(c.suggested_fixes.len(), 3);
            assert_eq!(
                c.conflict_type,
                ConflictType::DateOverlap("task1".to_string(), "task2".to_string(), day(2024, 1, 1), day(2024, 1, 10))
            );
        }
        other => panic!("expected conflicts, got {:?}", other),
    }
    assert_eq!(system.get_validation_stats(), (1, 0, 1));
}

#[test]
fn disabled_checks_report_nothing() {
    let config = ValidationConfig {
        circular_dependency_check: false,
        date_overlap_check: false,
        resource_conflict_check: false,
        resource_capacity_check: false,
        time_constraint_check: false,
        ..ValidationConfig::default()
    };
    let mut system = ConflictValidationSystem::new(config);
    let results = vec![
        result("task1", Some(day(2024, 1, 1)), Some(day(2024, 1, 10)), false, 0),
        result("task2", Some(day(2024, 1, 5)), Some(day(2024, 1, 15)), true, 1),
    ];
    let status = system.validate_graph(&AdvancedDependencyGraph::new(), &results);
    assert_eq!(status, ValidationStatus::Valid);
}

#[test]
fn unmet_dependencies_are_critical() {
    let mut system = ConflictValidationSystem::with_default_config();
    let results = vec![result("task1", None, None, false, 0)];
    match system.validate_graph(&AdvancedDependencyGraph::new(), &results) {
        ValidationStatus::Invalid(conflicts) => {
            assert_eq!(conflicts.len(), 1);
            assert_eq!(conflicts[0].message, "Dependencies not satisfied for task task1");
            assert_eq!(conflicts[0].severity, ConflictSeverity::Critical);
        }
        other => panic!("expected conflicts, got {:?}", other),
    }
    assert_eq!(system.get_validation_stats(), (1, 1, 0));
    system.clear_history();
    assert_eq!(system.get_validation_stats(), (0, 0, 0));
}

#[test]
fn contradicted_finish_to_start_is_reported() {
    let config = ValidationConfig { date_overlap_check: false, ..ValidationConfig::default() };
    let mut system = ConflictValidationSystem::new(config);
    let graph = two_task_graph();
    let results = vec![
        result("task1", Some(day(2024, 1, 1)), Some(day(2024, 1, 10)), true, 0),
        result("task2", Some(day(2024, 1, 5)), Some(day(2024, 1, 8)), true, 1),
    ];
    match system.validate_graph(&graph, &results) {
        ValidationStatus::Invalid(conflicts) => {
            assert_eq!(conflicts.len(), 1);
            assert_eq!(
                conflicts[0].message,
                "Impossible dependency: task1 finishes after task2 starts (2024-01-10 > 2024-01-05)"
            );
        }
        other => panic!("expected conflicts, got {:?}", other),
    }
}

#[test]
fn dependency_checks_before_adding() {
    let system = ConflictValidationSystem::with_default_config();
    let graph = two_task_graph();
    assert!(system.validate_dependency(&dep("task1", "task2"), &graph).is_err());
    assert!(system.validate_dependency(&dep("task2", "task1"), &graph).is_err());
    assert!(system.validate_dependency(&dep("nonexistent", "task2"), &graph).is_err());
    let mut fresh = AdvancedDependencyGraph::new();
    fresh.add_task(TaskNode::new("task1".to_string(), "Task 1".to_string(), None, None, None));
    fresh.add_task(TaskNode::new("task2".to_string(), "Task 2".to_string(), None, None, None));
    assert!(system.validate_dependency(&dep("task1", "task2"), &fresh).is_ok());
}
