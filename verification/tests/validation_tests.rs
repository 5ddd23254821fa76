use project_domain::errors::DomainError;
use project_domain::dates::Date;
use project_domain::project_management::advanced_dependencies::{
    AdvancedDependency, AdvancedDependencyGraph, DependencyType, LagType, TaskNode,
};
use project_domain::project_management::conflict_validation_system::{
    ConflictReport, ConflictSeverity, ConflictType, ConflictValidationSystem, ValidationConfig, ValidationStatus,
};
use project_domain::project_management::dependency_calculation_engine::CalculationResult;

fn day(y: i32, m: u32, d: u32) -> Date {
    Date::from_ymd_opt(y, m, d).unwrap()
}

fn fs(p: &str, s: &str) -> AdvancedDependency {
    AdvancedDependency::new(
        p.to_string(),
        s.to_string(),
        DependencyType::FinishToStart,
        LagType::zero(),
        "user1".to_string(),
        None,
    )
}

fn create_test_graph() -> AdvancedDependencyGraph {
    let mut graph = AdvancedDependencyGraph::new();
    graph.add_task(TaskNode::new("task1".to_string(), "Task 1".to_string(), None, None, None));
    graph.add_task(TaskNode::new("task2".to_string(), "Task 2".to_string(), None, None, None));
    graph.add_dependency(fs("task1", "task2")).unwrap();
    graph
}

fn report(conflict_type: ConflictType, severity: ConflictSeverity, message: &str, tasks: &[&str], fixes: &[&str]) -> ConflictReport {
    ConflictReport {
        conflict_type,
        severity,
        message: message.to_string(),
        affected_tasks: tasks.iter().map(|t| t.to_string()).collect(),
        suggested_fixes: fixes.iter().map(|t| t.to_string()).collect(),
        detected_at: 0,
    }
}

#[test]
fn test_validation_system_creation() {
    let system = ConflictValidationSystem::with_default_config();
    assert_eq!(system.get_conflict_history().len(), 0);
}

#[test]
fn conflict_validation_system_test_circular_dependency_detection() {
    let mut graph = AdvancedDependencyGraph::new();
    graph.add_task(TaskNode::new("task1".to_string(), "Task 1".to_string(), None, None, None));
    graph.add_task(TaskNode::new("task2".to_string(), "Task 2".to_string(), None, None, None));

    graph.add_dependency(fs("task1", "task2")).unwrap();
    let dep2_result = graph.add_dependency(fs("task2", "task1"));
    assert!(dep2_result.is_err());

    let mut system = ConflictValidationSystem::with_default_config();
    let calculation_results: Vec<CalculationResult> = Vec::new();

    let status = system.validate_graph(&graph, &calculation_results);
    assert!(matches!(status, ValidationStatus::Valid));
}

#[test]
fn test_date_overlap_detection() {
    let mut system = ConflictValidationSystem::with_default_config();
    let calculation_results = vec![
        CalculationResult {
            task_id: "task1".to_string(),
            calculated_start_date: Some(day(2024, 1, 1)),
            calculated_end_date: Some(day(2024, 1, 10)),
            is_critical: false,
            total_float: None,
            free_float: None,
            dependencies_satisfied: true,
            calculation_order: 0,
        },
        CalculationResult {
            task_id: "task2".to_string(),
            calculated_start_date: Some(day(2024, 1, 5)),
            calculated_end_date: Some(day(2024, 1, 15)),
            is_critical: false,
            total_float: None,
            free_float: None,
            dependencies_satisfied: true,
            calculation_order: 1,
        },
    ];

    let graph = AdvancedDependencyGraph::new();
    let status = system.validate_graph(&graph, &calculation_results);
    assert!(matches!(status, ValidationStatus::Invalid(_)));
}

#[test]
fn test_dependency_validation() {
    let system = ConflictValidationSystem::with_default_config();
    let graph = create_test_graph();

    let result = system.validate_dependency(&fs("task1", "task2"), &graph);
    assert!(result.is_err());
}

#[test]
fn test_conflict_report_display() {
    let r = report(
        ConflictType::CircularDependency(vec!["task1".to_string(), "task2".to_string()]),
        ConflictSeverity::Critical,
        "Circular dependency detected",
        &["task1", "task2"],
        &["Remove dependency"],
    );

    let display = r.to_string();
    assert!(display.contains("Critical"));
    assert!(display.contains("Circular dependency detected"));
    assert!(display.contains("task1, task2"));
    assert_eq!(
        display,
        "[Critical] Circular dependency detected - CircularDependency([\"task1\", \"task2\"]) (Affected: task1, task2)"
    );
}

#[test]
fn report_display_renders_dates_and_numbers() {
    let r = report(
        ConflictType::ResourceCapacityExceeded("res \"A\"".to_string(), day(2024, 1, 1), day(2024, 1, 10), 150, 100),
        ConflictSeverity::Warning,
        "Over capacity",
        &[],
        &[],
    );
    assert_eq!(
        r.to_string(),
        "[Warning] Over capacity - ResourceCapacityExceeded(\"res \\\"A\\\"\", 2024-01-01, 2024-01-10, 150, 100) (Affected: )"
    );
}

#[test]
fn test_conflict_validation_system_new() {
    let config = ValidationConfig::default();
    let system = ConflictValidationSystem::new(config);
    assert_eq!(system.get_conflict_history().len(), 0);
}

#[test]
fn test_conflict_validation_system_with_default_config() {
    let system = ConflictValidationSystem::with_default_config();
    assert_eq!(system.get_conflict_history().len(), 0);
}

#[test]
fn test_conflict_type_date_overlap() {
    let start1 = day(2024, 1, 1);
    let end1 = day(2024, 1, 10);
    let _start2 = day(2024, 1, 5);
    let _end2 = day(2024, 1, 15);

    let conflict = ConflictType::DateOverlap("task1".to_string(), "task2".to_string(), start1, end1);

    match conflict {
        ConflictType::DateOverlap(task1, task2, start, end) => {
            assert_eq!(task1, "task1");
            assert_eq!(task2, "task2");
            assert_eq!(start, start1);
            assert_eq!(end, end1);
        }
        _ => panic!("Expected DateOverlap conflict type"),
    }
}

#[test]
fn test_conflict_type_resource_conflict() {
    let start = day(2024, 1, 1);
    let end = day(2024, 1, 10);

    let conflict =
        ConflictType::ResourceConflict("task1".to_string(), "task2".to_string(), "resource1".to_string(), start, end);

    match conflict {
        ConflictType::ResourceConflict(task1, task2, resource, start_date, end_date) => {
            assert_eq!(task1, "task1");
            assert_eq!(task2, "task2");
            assert_eq!(resource, "resource1");
            assert_eq!(start_date, start);
            assert_eq!(end_date, end);
        }
        _ => panic!("Expected ResourceConflict conflict type"),
    }
}

#[test]
fn test_conflict_type_impossible_dependency() {
    let start = day(2024, 1, 10);
    let end = day(2024, 1, 1);

    let conflict = ConflictType::ImpossibleDependency("task1".to_string(), "task2".to_string(), start, end);

    match conflict {
        ConflictType::ImpossibleDependency(task1, task2, start_date, end_date) => {
            assert_eq!(task1, "task1");
            assert_eq!(task2, "task2");
            assert_eq!(start_date, start);
            assert_eq!(end_date, end);
        }
        _ => panic!("Expected ImpossibleDependency conflict type"),
    }
}

#[test]
fn test_conflict_type_priority_conflict() {
    let conflict = ConflictType::PriorityConflict(
        "task1".to_string(),
        "task2".to_string(),
        "High".to_string(),
        "Low".to_string(),
    );

    match conflict {
        ConflictType::PriorityConflict(task1, task2, priority1, priority2) => {
            assert_eq!(task1, "task1");
            assert_eq!(task2, "task2");
            assert_eq!(priority1, "High");
            assert_eq!(priority2, "Low");
        }
        _ => panic!("Expected PriorityConflict conflict type"),
    }
}

#[test]
fn test_conflict_type_resource_capacity_exceeded() {
    let start = day(2024, 1, 1);
    let end = day(2024, 1, 10);

    let conflict = ConflictType::ResourceCapacityExceeded("resource1".to_string(), start, end, 150, 100);

    match conflict {
        ConflictType::ResourceCapacityExceeded(resource, start_date, end_date, required, available) => {
            assert_eq!(resource, "resource1");
            assert_eq!(start_date, start);
            assert_eq!(end_date, end);
            assert_eq!(required, 150);
            assert_eq!(available, 100);
        }
        _ => panic!("Expected ResourceCapacityExceeded conflict type"),
    }
}

#[test]
fn test_conflict_type_time_constraint_violation() {
    let conflict = ConflictType::TimeConstraintViolation(
        "task1".to_string(),
        "constraint1".to_string(),
        "Must finish by deadline".to_string(),
    );

    match conflict {
        ConflictType::TimeConstraintViolation(task, constraint, message) => {
            assert_eq!(task, "task1");
            assert_eq!(constraint, "constraint1");
            assert_eq!(message, "Must finish by deadline");
        }
        _ => panic!("Expected TimeConstraintViolation conflict type"),
    }
}

#[test]
fn test_validation_status_variants() {
    let valid_status = ValidationStatus::Valid;
    let invalid_status = ValidationStatus::Invalid(vec![]);
    let in_progress_status = ValidationStatus::InProgress;
    let error_status = ValidationStatus::Error("Test error".to_string());

    assert_eq!(valid_status, ValidationStatus::Valid);
    assert!(matches!(invalid_status, ValidationStatus::Invalid(_)));
    assert_eq!(in_progress_status, ValidationStatus::InProgress);
    assert!(matches!(error_status, ValidationStatus::Error(_)));
}

#[test]
fn test_conflict_report_creation() {
    let r = report(
        ConflictType::CircularDependency(vec!["task1".to_string()]),
        ConflictSeverity::Warning,
        "Test message",
        &["task1"],
        &["Fix 1"],
    );

    assert!(matches!(r.conflict_type, ConflictType::CircularDependency(_)));
    assert_eq!(r.severity, ConflictSeverity::Warning);
    assert_eq!(r.message, "Test message");
    assert_eq!(r.affected_tasks.len(), 1);
    assert_eq!(r.suggested_fixes.len(), 1);
}

#[test]
fn test_validate_graph_with_disabled_checks() {
    let config = ValidationConfig {
        circular_dependency_check: false,
        date_overlap_check: false,
        resource_conflict_check: false,
        resource_capacity_check: false,
        time_constraint_check: false,
        ..Default::default()
    };

    let mut system = ConflictValidationSystem::new(config);
    let graph = AdvancedDependencyGraph::new();
    let calculation_results: Vec<CalculationResult> = Vec::new();

    let status = system.validate_graph(&graph, &calculation_results);
    assert!(matches!(status, ValidationStatus::Valid));
}

#[test]
fn test_validate_graph_with_empty_calculation_results() {
    let mut system = ConflictValidationSystem::with_default_config();
    let graph = AdvancedDependencyGraph::new();
    let calculation_results: Vec<CalculationResult> = Vec::new();

    let status = system.validate_graph(&graph, &calculation_results);
    assert!(matches!(status, ValidationStatus::Valid));
}

#[test]
fn test_validate_dependency_with_valid_dependency() {
    let system = ConflictValidationSystem::with_default_config();
    let mut graph = AdvancedDependencyGraph::new();
    graph.add_task(TaskNode::new("task1".to_string(), "Task 1".to_string(), None, None, None));
    graph.add_task(TaskNode::new("task2".to_string(), "Task 2".to_string(), None, None, None));

    let result = system.validate_dependency(&fs("task1", "task2"), &graph);
    assert!(result.is_ok());
}

#[test]
fn test_validate_dependency_with_nonexistent_task() {
    let system = ConflictValidationSystem::with_default_config();
    let graph = AdvancedDependencyGraph::new();

    let result = system.validate_dependency(&fs("nonexistent", "task2"), &graph);
    assert!(result.is_err());
}

#[test]
fn test_get_conflict_history() {
    let system = ConflictValidationSystem::with_default_config();
    let history = system.get_conflict_history();
    assert_eq!(history.len(), 0);
}

#[test]
fn test_clear_history() {
    let mut system = ConflictValidationSystem::with_default_config();
    system.clear_history();
    assert_eq!(system.get_conflict_history().len(), 0);
}

#[test]
fn test_get_validation_stats() {
    let config = ValidationConfig::default();
    let system = ConflictValidationSystem::new(config);
    let (total_conflicts, critical_conflicts, warnings) = system.get_validation_stats();
    assert_eq!(total_conflicts, 0);
    assert_eq!(critical_conflicts, 0);
    assert_eq!(warnings, 0);
}

#[test]
fn test_update_config() {
    let mut system = ConflictValidationSystem::with_default_config();
    let new_config = ValidationConfig { circular_dependency_check: false, date_tolerance_days: 5, ..Default::default() };

    system.update_config(new_config.clone());
    let graph = AdvancedDependencyGraph::new();
    let calculation_results: Vec<CalculationResult> = Vec::new();
    let status = system.validate_graph(&graph, &calculation_results);
    assert!(matches!(status, ValidationStatus::Valid));
}

#[test]
fn test_validate_dependency_of_a_task_on_itself_is_circular() {
    let system = ConflictValidationSystem::with_default_config();
    let mut graph = AdvancedDependencyGraph::new();
    graph.add_task(TaskNode::new("task1".to_string(), "Task 1".to_string(), None, None, None));

    let result = system.validate_dependency(&fs("task1", "task1"), &graph);
    assert_eq!(
        result,
        Err(DomainError::ValidationError {
            field: "dependency".to_string(),
            message: "Adding this dependency would create a circular dependency".to_string(),
        })
    );
}
